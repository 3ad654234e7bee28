//! Works out `Il2CppClass::static_fields` from the `il2cpp.h` the dumper writes.
//!
//! Every chain the client walks to reach a static class goes
//! `slot -> +static_fields -> deref -> +field`. That middle number is not
//! arbitrary: it is `sizeof(Il2CppClass_1)`, which Unity changes when it
//! changes the runtime. Deriving it from the header the dumper just produced
//! means a Unity upgrade shifts the number instead of silently corrupting every
//! offset in the file.
//!
//! The parser handles exactly the subset of C that Il2CppDumper emits: flat
//! structs of scalars, pointers, and other structs declared earlier.

use vstd::hash_map::StringHashMap;
use vstd::prelude::*;
use vstd::slice::slice_subrange;

use crate::error::{agrees, read_to_string_lossy, Error, ErrorView, Result};
use crate::numbers::{decimal, decimal_text};
use crate::pe::Arch;
use crate::text::{
    before, chars_of, contains, first_at, has_part, is_white, last_at, leading_run, lemma_absent,
    lemma_find_is, lemma_first_word, lemma_nothing_to_trim, lemma_rfind_is, lemma_run_length, lines,
    lossy_text, occurs_at, part_views, rfind, rfind_part, run_length, same_text, split_lines,
    string_of, strip_prefix, strip_suffix, trim, trim_end, trim_end_char, trim_start, trimmed,
    trimmed_end_char, up_to, without_prefix, without_suffix,
};

verus! {

/// Size and alignment of a type, in bytes.
#[derive(Debug, Clone, Copy, PartialEq, Eq)]
pub struct Layout {
    pub size: u64,
    pub align: u64,
}

/// The members of a struct, as `(type, name)`.
pub type Members = Seq<(Seq<char>, Seq<char>)>;

/// What a [`HeaderLayout`] holds.
pub struct HeaderView {
    pub arch: Arch,
    pub structs: Map<Seq<char>, Members>,
}

/// `struct Foo` / `struct Foo;` / `union Foo`: the name, and whether a body follows.
pub open spec fn declared_struct(line: Seq<char>) -> Option<(Seq<char>, bool)> {
    let rest = match strip_prefix(line, "struct "@) {
        Some(rest) => Some(rest),
        None => strip_prefix(line, "union "@),
    };
    match rest {
        None => None,
        Some(rest) => {
            let name = trim(trim_end_char(trim(trim_end_char(rest, '{')), ';'));
            if name.len() == 0 || contains(name, " "@) {
                None
            } else {
                Some((name, line.last() != ';'))
            }
        },
    }
}

/// `n` pointer stars.
pub open spec fn stars(n: nat) -> Seq<char> {
    Seq::new(n, |i: int| '*')
}

/// `Il2CppClass* parent;` -> `("Il2CppClass*", "parent")`.
///
/// Arrays such as `VirtualInvokeData vtable[255]` sit after `static_fields` and
/// never need sizing, so they are skipped rather than modelled. Pointer stars
/// can bind either way: `void *monitor` and `void* monitor`.
pub open spec fn declared_member(line: Seq<char>) -> Option<(Seq<char>, Seq<char>)> {
    match strip_suffix(trim(before(line, "//"@)), ";"@) {
        None => None,
        Some(declaration) => if declaration.len() == 0 || contains(declaration, "("@) || contains(
            declaration,
            "{"@,
        ) || contains(declaration, "["@) {
            None
        } else {
            let plain = match strip_prefix(declaration, "const "@) {
                Some(rest) => rest,
                None => declaration,
            };
            match rfind(plain, " "@) {
                None => None,
                Some(at) => {
                    let name_part = plain.skip(at + 1);
                    let count = run_length(name_part, '*');
                    let name = trim(name_part.skip(count as int));
                    if name.len() == 0 {
                        None
                    } else {
                        Some((trim(plain.take(at)) + stars(count), name))
                    }
                },
            }
        },
    }
}

/// The structs that have been read, and the one that is being read.
pub struct Progress {
    pub structs: Map<Seq<char>, Members>,
    pub current: Option<(Seq<char>, Members)>,
}

/// The structs with the one that is being read among them.
pub open spec fn closed_structs(p: Progress) -> Map<Seq<char>, Members> {
    match p.current {
        Some((name, members)) => p.structs.insert(name, members),
        None => p.structs,
    }
}

/// What has been read after one more line. A forward declaration changes nothing.
pub open spec fn after_line(p: Progress, raw: Seq<char>) -> Progress {
    let line = trim(raw);
    match declared_struct(line) {
        Some((name, has_body)) => if has_body {
            Progress { structs: closed_structs(p), current: Some((name, Seq::empty())) }
        } else {
            p
        },
        None => if line == "};"@ {
            Progress { structs: closed_structs(p), current: None }
        } else {
            match p.current {
                Some((name, members)) => match declared_member(line) {
                    Some(member) => Progress {
                        structs: p.structs,
                        current: Some((name, members.push(member))),
                    },
                    None => p,
                },
                None => p,
            }
        },
    }
}

pub open spec fn after_lines(all: Seq<Seq<char>>) -> Progress
    decreases all.len(),
{
    if all.len() == 0 {
        Progress { structs: Map::empty(), current: None }
    } else {
        after_line(after_lines(all.drop_last()), all.last())
    }
}

/// The structs that a header declares, by name.
pub open spec fn structs_of(text: Seq<char>) -> Map<Seq<char>, Members> {
    closed_structs(after_lines(lines(text)))
}

/// The least multiple of `align` that is at least `value`.
pub open spec fn aligned(value: int, align: int) -> int {
    if align <= 1 {
        value
    } else {
        ((value + align - 1) / align) * align
    }
}

/// The size of a scalar type.
pub open spec fn scalar_size(name: Seq<char>, pointer: int) -> Option<int> {
    if name == "uint8_t"@ || name == "int8_t"@ || name == "char"@ || name == "bool"@ || name
        == "unsigned char"@ {
        Some(1)
    } else if name == "uint16_t"@ || name == "int16_t"@ || name == "short"@ || name
        == "unsigned short"@ {
        Some(2)
    } else if name == "uint32_t"@ || name == "int32_t"@ || name == "int"@ || name == "unsigned int"@
        || name == "float"@ {
        Some(4)
    } else if name == "uint64_t"@ || name == "int64_t"@ || name == "double"@ || name == "long long"@
        || name == "unsigned long long"@ {
        Some(8)
    } else if name == "size_t"@ || name == "intptr_t"@ || name == "uintptr_t"@ {
        Some(pointer)
    } else {
        None
    }
}

impl HeaderView {
    /// Size and alignment of a type whose structs nest at most `levels` deep;
    /// a type whose size does not fit in 64 bits has none.
    pub open spec fn layout(self, name: Seq<char>, levels: nat) -> Option<Layout>
        decreases levels, 0nat,
    {
        let plain = trim(name);
        let pointer = self.arch.pointer();
        if levels == 0 {
            None
        } else if plain.len() > 0 && plain.last() == '*' {
            Some(Layout { size: pointer as u64, align: pointer as u64 })
        } else {
            match scalar_size(plain, pointer) {
                Some(size) => Some(Layout { size: size as u64, align: size as u64 }),
                None => if self.structs.contains_key(plain) {
                    let members = self.structs[plain];
                    match self.members_layout(members, members.len(), (levels - 1) as nat) {
                        Some(all) => {
                            let size = aligned(all.size as int, all.align as int);
                            if size <= u64::MAX {
                                Some(Layout { size: size as u64, align: all.align })
                            } else {
                                None
                            }
                        },
                        None => None,
                    }
                } else {
                    None
                },
            }
        }
    }

    /// Where the first `count` members end, and the strictest of their alignments.
    pub open spec fn members_layout(self, members: Members, count: nat, levels: nat) -> Option<
        Layout,
    >
        decreases levels, 1 + count,
    {
        if count == 0 || count > members.len() {
            Some(Layout { size: 0, align: 1 })
        } else {
            match self.members_layout(members, (count - 1) as nat, levels) {
                None => None,
                Some(before) => match self.layout(members[count - 1].0, levels) {
                    None => None,
                    Some(member) => {
                        let size = aligned(before.size as int, member.align as int) + member.size;
                        let align = if before.align >= member.align {
                            before.align
                        } else {
                            member.align
                        };
                        if size <= u64::MAX {
                            Some(Layout { size: size as u64, align })
                        } else {
                            None
                        }
                    },
                },
            }
        }
    }

    /// Where the member of this name stands, of those from `k` on, where the
    /// ones before it end at `end`.
    pub open spec fn offset_from(self, members: Members, name: Seq<char>, k: int, end: u64) -> Option<
        u64,
    >
        decreases members.len() - k,
    {
        if k < 0 || k >= members.len() {
            None
        } else {
            match self.layout(members[k].0, NESTING as nat) {
                None => None,
                Some(layout) => {
                    let start = aligned(end as int, layout.align as int);
                    if start > u64::MAX {
                        None
                    } else if members[k].1 == name {
                        Some(start as u64)
                    } else if start + layout.size > u64::MAX {
                        None
                    } else {
                        self.offset_from(members, name, k + 1, (start + layout.size) as u64)
                    }
                },
            }
        }
    }

    /// Byte offset of a member of a struct.
    pub open spec fn offset(self, of: Seq<char>, member: Seq<char>) -> Option<u64> {
        if self.structs.contains_key(of) {
            self.offset_from(self.structs[of], member, 0, 0)
        } else {
            None
        }
    }

    /// Byte offset of `Il2CppClass::static_fields`. Every IL2CPP version since
    /// Unity 5 lands between ten and forty pointers, and a value outside would
    /// mean the parse went wrong rather than that Unity moved something.
    pub open spec fn static_fields(self) -> std::result::Result<u64, ErrorView> {
        let low = 10 * self.arch.pointer();
        let high = 40 * self.arch.pointer();
        match self.offset("Il2CppClass"@, "static_fields"@) {
            None => Err(
                ErrorView::Malformed(
                    "il2cpp.h has no Il2CppClass::static_fields -- the dumper's header format changed and the static-field chains can no longer be derived"@,
                ),
            ),
            Some(offset) => if low <= offset <= high {
                Ok(offset)
            } else {
                Err(
                    ErrorView::Malformed(
                        "computed Il2CppClass::static_fields = "@ + decimal(offset as int)
                            + ", which is outside the plausible range "@ + decimal(low) + "..="@
                            + decimal(high) + " for "@ + self.arch.name()
                            + " -- refusing to build chains on it"@,
                    ),
                )
            },
        }
    }
}

/// How deep structs may nest. The real header is only two levels deep; the
/// limit ends the search where structs contain each other.
pub const NESTING: usize = 9;

/// The view of an optional struct header.
pub open spec fn header_view(header: Option<(String, bool)>) -> Option<(Seq<char>, bool)> {
    match header {
        Some((name, has_body)) => Some((name@, has_body)),
        None => None,
    }
}

/// The view of an optional member.
pub open spec fn member_view(member: Option<(String, String)>) -> Option<(Seq<char>, Seq<char>)> {
    match member {
        Some((kind, name)) => Some((kind@, name@)),
        None => None,
    }
}

/// `struct Foo` / `struct Foo;` / `union Foo`, returning whether a body follows.
fn struct_header(line: &[char]) -> (r: Option<(String, bool)>)
    ensures
        header_view(r) == declared_struct(line@),
{
    proof {
        reveal_strlit("struct ");
        reveal_strlit("union ");
    }
    let rest = match without_prefix(line, "struct ") {
        Some(rest) => rest,
        None => match without_prefix(line, "union ") {
            Some(rest) => rest,
            None => {
                return None;
            },
        },
    };
    let name = trimmed(trimmed_end_char(trimmed(trimmed_end_char(rest, '{')), ';'));
    if name.len() == 0 || has_part(name, " ") {
        return None;
    }
    Some((string_of(name), line[line.len() - 1] != ';'))
}

/// `Il2CppClass* parent;` -> ("Il2CppClass*", "parent")
fn member_in(line: &[char]) -> (r: Option<(String, String)>)
    ensures
        member_view(r) == declared_member(line@),
{
    proof {
        reveal_strlit(" ");
    }
    let declaration = match without_suffix(trimmed(up_to(line, "//")), ";") {
        Some(declaration) => declaration,
        None => {
            return None;
        },
    };
    if declaration.len() == 0 || has_part(declaration, "(") || has_part(declaration, "{")
        || has_part(declaration, "[") {
        return None;
    }
    let plain = match without_prefix(declaration, "const ") {
        Some(rest) => rest,
        None => declaration,
    };
    match rfind_part(plain, " ") {
        None => None,
        Some(at) => {
            let limit: usize = plain.len();
            let name_part = slice_subrange(plain, at + 1, limit);
            let count: usize = leading_run(name_part, '*');
            let name = trimmed(slice_subrange(name_part, count, name_part.len()));
            if name.len() == 0 {
                return None;
            }
            let mut kind = string_of(trimmed(slice_subrange(plain, 0, at)));
            let ghost bare = kind@;
            let mut i: usize = 0;
            assert(kind@ =~= bare + stars(0));
            while i < count
                invariant
                    i <= count,
                    kind@ == bare + stars(i as nat),
                decreases count - i,
            {
                kind.push('*');
                i += 1;
                assert(kind@ =~= bare + stars(i as nat));
            }
            Some((kind, string_of(name)))
        },
    }
}

/// `Il2CppClass* parent;` -> ("Il2CppClass*", "parent")
pub fn parse_member(line: &str) -> (r: Option<(String, String)>)
    ensures
        member_view(r) == declared_member(line@),
{
    let chars: Vec<char> = chars_of(line);
    member_in(chars.as_slice())
}

proof fn lemma_aligned(value: int, align: int)
    requires
        value >= 0,
        align > 1,
    ensures
        aligned(value, align) == (if value % align == 0 {
            value
        } else {
            value + (align - value % align)
        }),
        aligned(value, align) >= value,
{
    let q = value / align;
    let rest = value % align;
    assert(value == q * align + rest && 0 <= rest < align) by {
        vstd::arithmetic::div_mod::lemma_fundamental_div_mod(value, align);
        vstd::arithmetic::mul::lemma_mul_is_commutative(align, q);
    }
    if rest == 0 {
        assert((value + align - 1) / align == q) by (nonlinear_arith)
            requires
                value == q * align,
                align > 1,
        ;
    } else {
        assert((value + align - 1) / align == q + 1) by (nonlinear_arith)
            requires
                value == q * align + rest,
                0 < rest < align,
                align > 1,
        ;
        assert((q + 1) * align == q * align + align) by (nonlinear_arith);
    }
}

/// The least multiple of `align` that is at least `value`, where it fits in 64 bits.
fn align_up(value: u64, align: u64) -> (r: Option<u64>)
    ensures
        match r {
            Some(n) => n == aligned(value as int, align as int),
            None => aligned(value as int, align as int) > u64::MAX,
        },
{
    if align <= 1 {
        return Some(value);
    }
    proof {
        lemma_aligned(value as int, align as int);
    }
    let rest: u64 = value % align;
    if rest == 0 {
        Some(value)
    } else {
        value.checked_add(align - rest)
    }
}

pub struct HeaderLayout {
    arch: Arch,
    structs: StringHashMap<Vec<(String, String)>>,
}

pub open spec fn members_view(members: Seq<(String, String)>) -> Members {
    members.map_values(|m: (String, String)| (m.0@, m.1@))
}

pub open spec fn structs_view(structs: Map<Seq<char>, Vec<(String, String)>>) -> Map<
    Seq<char>,
    Members,
> {
    structs.map_values(|m: Vec<(String, String)>| members_view(m@))
}

impl View for HeaderLayout {
    type V = HeaderView;

    closed spec fn view(&self) -> HeaderView {
        HeaderView { arch: self.arch, structs: structs_view(self.structs@) }
    }
}

fn keep_struct(
    structs: &mut StringHashMap<Vec<(String, String)>>,
    name: String,
    members: Vec<(String, String)>,
)
    ensures
        structs_view(final(structs)@) == structs_view(old(structs)@).insert(
            name@,
            members_view(members@),
        ),
{
    let ghost before = structs@;
    structs.insert(name, members);
    assert(structs_view(structs@) =~= structs_view(before).insert(name@, members_view(members@)));
}

spec fn current_view(current: Option<(String, Vec<(String, String)>)>) -> Option<
    (Seq<char>, Members),
> {
    match current {
        Some((name, members)) => Some((name@, members_view(members@))),
        None => None,
    }
}

impl HeaderLayout {
    /// Reads the contents of an `il2cpp.h`.
    pub fn load(contents: &[u8], arch: Arch) -> (r: Self)
        ensures
            r@ == (HeaderView { arch, structs: structs_of(lossy_text(contents@)) }),
    {
        let text: String = read_to_string_lossy(contents);
        Self::parse(text.as_str(), arch)
    }

    pub fn parse(text: &str, arch: Arch) -> (r: Self)
        ensures
            r@ == (HeaderView { arch, structs: structs_of(text@) }),
    {
        let chars: Vec<char> = chars_of(text);
        let all = split_lines(chars.as_slice());
        let ghost parts = lines(text@);
        let mut structs: StringHashMap<Vec<(String, String)>> = StringHashMap::new();
        let mut current: Option<(String, Vec<(String, String)>)> = None;
        assert(structs_view(structs@) =~= Map::empty());
        for i in 0..all.len()
            invariant
                part_views(all@) == parts,
                after_lines(parts.take(i as int)) == (Progress {
                    structs: structs_view(structs@),
                    current: current_view(current),
                }),
        {
            assert(all@[i as int]@ == parts[i as int]);
            assert(parts.take(i + 1).drop_last() =~= parts.take(i as int));
            assert(parts.take(i + 1).last() == all@[i as int]@);
            let line = trimmed(all[i]);
            if let Some((name, has_body)) = struct_header(line) {
                if has_body {
                    if let Some((previous, members)) = current {
                        keep_struct(&mut structs, previous, members);
                    }
                    let members: Vec<(String, String)> = Vec::new();
                    assert(members_view(members@) =~= Seq::empty());
                    current = Some((name, members));
                }
            } else if crate::text::same_chars(line, "};") {
                if let Some((name, members)) = current {
                    keep_struct(&mut structs, name, members);
                }
                current = None;
            } else {
                current = match current {
                    Some((name, previous)) => {
                        let mut members = previous;
                        if let Some((kind, member)) = member_in(line) {
                            let ghost before = members_view(members@);
                            members.push((kind, member));
                            assert(members_view(members@) =~= before.push((kind@, member@)));
                        }
                        Some((name, members))
                    },
                    None => None,
                };
            }
        }
        assert(parts.take(parts.len() as int) =~= parts);
        if let Some((name, members)) = current {
            keep_struct(&mut structs, name, members);
        }
        Self { arch, structs }
    }

    /// Byte offset of `Il2CppClass::static_fields`.
    pub fn static_fields_offset(&self) -> (r: Result<u64>)
        ensures
            agrees(r, self@.static_fields()),
            r matches Ok(offset) ==> 10 * self@.arch.pointer() <= offset <= 40
                * self@.arch.pointer(),
    {
        let offset: u64 = match self.member_offset("Il2CppClass", "static_fields") {
            Some(offset) => offset,
            None => {
                return Err(
                    Error::malformed(
                        "il2cpp.h has no Il2CppClass::static_fields -- the dumper's header format changed and the static-field chains can no longer be derived".to_owned(),
                    ),
                );
            },
        };
        let pointer: u64 = self.arch.pointer_size();
        let low: u64 = 10 * pointer;
        let high: u64 = 40 * pointer;
        if !(low <= offset && offset <= high) {
            let mut message = "computed Il2CppClass::static_fields = ".to_owned();
            message.append(decimal_text(offset as i128).as_str());
            message.append(", which is outside the plausible range ");
            message.append(decimal_text(low as i128).as_str());
            message.append("..=");
            message.append(decimal_text(high as i128).as_str());
            message.append(" for ");
            message.append(self.arch.dir_name());
            message.append(" -- refusing to build chains on it");
            return Err(Error::malformed(message));
        }
        Ok(offset)
    }

    fn member_offset(&self, struct_name: &str, member_name: &str) -> (r: Option<u64>)
        ensures
            r == self@.offset(struct_name@, member_name@),
    {
        let members = match self.structs.get(struct_name) {
            Some(members) => members,
            None => {
                return None;
            },
        };
        let ghost all = members_view(members@);
        let mut offset: u64 = 0;
        let mut k: usize = 0;
        while k < members.len()
            invariant
                k <= members@.len(),
                all == members_view(members@),
                self@.offset_from(all, member_name@, k as int, offset) == self@.offset(
                    struct_name@,
                    member_name@,
                ),
            decreases members@.len() - k,
        {
            let member = &members[k];
            assert(all[k as int] == (member.0@, member.1@));
            let layout: Layout = match self.layout_of(member.0.as_str(), NESTING) {
                Some(layout) => layout,
                None => {
                    return None;
                },
            };
            offset = match align_up(offset, layout.align) {
                Some(start) => start,
                None => {
                    return None;
                },
            };
            if same_text(member.1.as_str(), member_name) {
                return Some(offset);
            }
            offset = match offset.checked_add(layout.size) {
                Some(end) => end,
                None => {
                    return None;
                },
            };
            k += 1;
        }
        None
    }

    fn layout_of(&self, kind: &str, levels: usize) -> (r: Option<Layout>)
        ensures
            r == self@.layout(kind@, levels as nat),
        decreases levels,
    {
        if levels == 0 {
            return None;
        }
        let chars: Vec<char> = chars_of(kind);
        let plain = trimmed(chars.as_slice());
        let pointer: u64 = self.arch.pointer_size();
        if plain.len() > 0 && plain[plain.len() - 1] == '*' {
            return Some(Layout { size: pointer, align: pointer });
        }
        let name = string_of(plain);
        if let Some(size) = scalar(name.as_str(), pointer) {
            return Some(Layout { size, align: size });
        }
        let members = match self.structs.get(name.as_str()) {
            Some(members) => members,
            None => {
                return None;
            },
        };
        let ghost all = members_view(members@);
        let inner: usize = levels - 1;
        let mut size: u64 = 0;
        let mut align: u64 = 1;
        let mut k: usize = 0;
        while k < members.len()
            invariant
                k <= members@.len(),
                inner < levels,
                all == members_view(members@),
                self@.members_layout(all, all.len(), inner as nat) is None ==> self@.layout(
                    kind@,
                    levels as nat,
                ) is None,
                self@.members_layout(all, k as nat, inner as nat) == Some(Layout { size, align }),
            decreases members@.len() - k,
        {
            let member = &members[k];
            assert(all[k as int] == (member.0@, member.1@));
            let next: Option<Layout> = match self.layout_of(member.0.as_str(), inner) {
                Some(layout) => match align_up(size, layout.align) {
                    Some(start) => match start.checked_add(layout.size) {
                        Some(end) => Some(
                            Layout {
                                size: end,
                                align: if align >= layout.align {
                                    align
                                } else {
                                    layout.align
                                },
                            },
                        ),
                        None => None,
                    },
                    None => None,
                },
                None => None,
            };
            assert(next == self@.members_layout(all, (k + 1) as nat, inner as nat));
            match next {
                Some(layout) => {
                    size = layout.size;
                    align = layout.align;
                },
                None => {
                    proof {
                        lemma_no_layout(self@, all, (k + 1) as nat, all.len(), inner as nat);
                    }
                    return None;
                },
            }
            k += 1;
        }
        match align_up(size, align) {
            Some(size) => Some(Layout { size, align }),
            None => None,
        }
    }
}

proof fn lemma_no_layout(header: HeaderView, members: Members, a: nat, b: nat, levels: nat)
    requires
        a <= b <= members.len(),
        header.members_layout(members, a, levels) is None,
    ensures
        header.members_layout(members, b, levels) is None,
    decreases b - a,
{
    if a < b {
        lemma_no_layout(header, members, a, (b - 1) as nat, levels);
    }
}

fn scalar(name: &str, pointer: u64) -> (r: Option<u64>)
    ensures
        match r {
            Some(size) => scalar_size(name@, pointer as int) == Some(size as int),
            None => scalar_size(name@, pointer as int) is None,
        },
{
    if same_text(name, "uint8_t") || same_text(name, "int8_t") || same_text(name, "char")
        || same_text(name, "bool") || same_text(name, "unsigned char") {
        Some(1)
    } else if same_text(name, "uint16_t") || same_text(name, "int16_t") || same_text(name, "short")
        || same_text(name, "unsigned short") {
        Some(2)
    } else if same_text(name, "uint32_t") || same_text(name, "int32_t") || same_text(name, "int")
        || same_text(name, "unsigned int") || same_text(name, "float") {
        Some(4)
    } else if same_text(name, "uint64_t") || same_text(name, "int64_t") || same_text(name, "double")
        || same_text(name, "long long") || same_text(name, "unsigned long long") {
        Some(8)
    } else if same_text(name, "size_t") || same_text(name, "intptr_t") || same_text(
        name,
        "uintptr_t",
    ) {
        Some(pointer)
    } else {
        None
    }
}

/// A plain C name: no white space and none of the marks that end a declaration
/// or make it something else than a member.
pub open spec fn plain_name(s: Seq<char>) -> bool {
    &&& s.len() > 0
    &&& forall|i: int|
        0 <= i < s.len() ==> !is_white(#[trigger] s[i]) && s[i] != '/' && s[i] != ';' && s[i] != '('
            && s[i] != '{' && s[i] != '[' && s[i] != '*'
}

/// The text of a type in a member's declaration. It may hold white space, as
/// `unsigned int` does, but none at its ends, and none of the marks that end a
/// declaration or make it something else than a member.
pub open spec fn type_text(s: Seq<char>) -> bool {
    &&& s.len() > 0
    &&& !is_white(s[0])
    &&& !is_white(s.last())
    &&& forall|i: int|
        0 <= i < s.len() ==> #[trigger] s[i] != '/' && s[i] != ';' && s[i] != '(' && s[i] != '{'
            && s[i] != '['
}

/// A type without the `const` it starts with.
pub open spec fn without_const(kind: Seq<char>) -> Seq<char> {
    match strip_prefix(kind, "const "@) {
        Some(rest) => rest,
        None => kind,
    }
}

/// White space, then a comment where there is one.
pub open spec fn only_comment(s: Seq<char>) -> bool {
    forall|i: int| 0 <= i < before(s, "//"@).len() ==> is_white(#[trigger] before(s, "//"@)[i])
}

/// `kind`, a space, and `name` with `count` stars before it, then `;` and `tail`.
pub open spec fn stars_at_name(
    kind: Seq<char>,
    count: nat,
    name: Seq<char>,
    tail: Seq<char>,
) -> Seq<char> {
    kind + " "@ + stars(count) + name + ";"@ + tail
}

/// `kind` with `count` stars behind it, a space and `name`, then `;` and `tail`.
pub open spec fn stars_at_type(
    kind: Seq<char>,
    count: nat,
    name: Seq<char>,
    tail: Seq<char>,
) -> Seq<char> {
    kind + stars(count) + " "@ + name + ";"@ + tail
}

/// What stands before the first `//` where the first part has no slash.
pub proof fn lemma_before_past(s: Seq<char>, tail: Seq<char>)
    requires
        forall|i: int| 0 <= i < s.len() ==> #[trigger] s[i] != '/',
    ensures
        before(s + tail, "//"@) == s + before(tail, "//"@),
{
    reveal_strlit("//");
    let all = s + tail;
    assert forall|at: int| occurs_at(all, "//"@, at) implies s.len() <= at && occurs_at(
        tail,
        "//"@,
        at - s.len(),
    ) by {
        assert(all.subrange(at, at + 2)[0] == all[at]);
        if at < s.len() {
            assert(all[at] == s[at]);
        }
        assert(tail.subrange(at - s.len(), at - s.len() + 2) =~= all.subrange(at, at + 2));
    }
    assert forall|at: int| occurs_at(tail, "//"@, at) implies occurs_at(
        all,
        "//"@,
        at + s.len(),
    ) by {
        assert(tail.subrange(at, at + 2) =~= all.subrange(at + s.len(), at + s.len() + 2));
    }
    if contains(tail, "//"@) {
        lemma_first(tail, "//"@);
        let at = choose|at: int| first_at(tail, "//"@, at);
        lemma_find_is(tail, "//"@, at);
        assert(first_at(all, "//"@, at + s.len()));
        lemma_find_is(all, "//"@, at + s.len());
        assert(all.take(at + s.len()) =~= s + tail.take(at));
    } else {
        assert(!contains(all, "//"@));
    }
}

/// A part that occurs has a first place.
proof fn lemma_first(s: Seq<char>, part: Seq<char>)
    requires
        contains(s, part),
    ensures
        exists|at: int| first_at(s, part, at),
{
    let some = choose|at: int| occurs_at(s, part, at);
    lemma_first_up_to(s, part, some);
}

proof fn lemma_first_up_to(s: Seq<char>, part: Seq<char>, some: int)
    requires
        occurs_at(s, part, some),
    ensures
        exists|at: int| first_at(s, part, at),
    decreases some,
{
    if !first_at(s, part, some) {
        let earlier = choose|i: int| i < some && occurs_at(s, part, i);
        lemma_first_up_to(s, part, earlier);
    }
}

/// White space behind a text is trimmed away.
proof fn lemma_trim_white_tail(s: Seq<char>, white: Seq<char>)
    requires
        s.len() > 0,
        !is_white(s[0]),
        !is_white(s.last()),
        forall|i: int| 0 <= i < white.len() ==> is_white(#[trigger] white[i]),
    ensures
        trim(s + white) == s,
    decreases white.len(),
{
    let all = s + white;
    assert(all[0] == s[0]);
    if white.len() > 0 {
        assert(all.last() == white.last());
        assert(white.last() == white[white.len() - 1]);
        assert(all.drop_last() =~= s + white.drop_last());
        lemma_trim_white_tail(s, white.drop_last());
        assert(all.drop_last()[0] == s[0]);
    } else {
        assert(all =~= s);
    }
}

/// Only the white space at its start is trimmed off a text that goes on.
proof fn lemma_trim_start_before(s: Seq<char>, more: Seq<char>)
    requires
        s.len() > 0,
        !is_white(s.last()),
    ensures
        trim_start(s).len() > 0,
        trim_start(s).last() == s.last(),
        trim_start(s + more) == trim_start(s) + more,
    decreases s.len(),
{
    assert((s + more)[0] == s[0]);
    if is_white(s[0]) {
        assert(s.len() > 1);
        assert(s.skip(1).last() == s.last());
        assert((s + more).skip(1) =~= s.skip(1) + more);
        lemma_trim_start_before(s.skip(1), more);
    }
}

/// What a declaration of `kind`, then a space, then `name` with `count` stars
/// before it gives.
proof fn lemma_declared(kind: Seq<char>, count: nat, name: Seq<char>, tail: Seq<char>)
    requires
        type_text(kind),
        kind != "const"@,
        plain_name(name),
        only_comment(tail),
    ensures
        declared_member(stars_at_name(kind, count, name, tail)) == Some(
            (trim(without_const(kind)) + stars(count), name),
        ),
{
    reveal_strlit(" ");
    reveal_strlit(";");
    reveal_strlit("(");
    reveal_strlit("{");
    reveal_strlit("[");
    reveal_strlit("const ");
    reveal_strlit("const");
    let part = stars(count) + name;
    let declaration = kind + " "@ + stars(count) + name;
    let line = declaration + ";"@;
    let at = kind.len() as int;
    assert(declaration[at] == ' ');
    assert forall|i: int| 0 <= i < declaration.len() implies declaration[i] != '/'
        && declaration[i] != '(' && declaration[i] != '{' && declaration[i] != '[' && (i > at
        ==> !is_white(#[trigger] declaration[i])) by {
        if i < at {
            assert(declaration[i] == kind[i]);
        } else if i > at {
            assert(declaration[i] == part[i - at - 1]);
            if i - at - 1 >= count {
                assert(part[i - at - 1] == name[i - at - 1 - count]);
            }
        }
    }
    assert forall|i: int| 0 <= i < line.len() implies #[trigger] line[i] != '/' by {
        if i < declaration.len() {
            assert(line[i] == declaration[i]);
        }
    }
    lemma_before_past(line, tail);
    assert(stars_at_name(kind, count, name, tail) == line + tail);
    assert(line[0] == kind[0]);
    assert(!is_white(';'));
    lemma_trim_white_tail(line, before(tail, "//"@));
    assert(line.subrange(line.len() - 1, line.len() as int) =~= ";"@);
    assert(line.take(line.len() - 1) =~= declaration);
    assert(strip_suffix(line, ";"@) == Some(declaration));
    lemma_absent(declaration, "("@);
    lemma_absent(declaration, "{"@);
    lemma_absent(declaration, "["@);
    assert(declaration =~= kind + " "@ + part);
    assert("const"@ + " "@ =~= "const "@);
    lemma_first_word(kind, part, "const"@);
    let bare = without_const(kind);
    let plain = bare + " "@ + part;
    if occurs_at(kind, "const "@, 0) {
        assert(kind.subrange(0, 6)[5] == kind[5]);
        assert(kind.len() > 6);
        assert(declaration.skip(6) =~= plain);
    } else {
        assert(declaration =~= plain);
    }
    assert(bare.last() == kind.last());
    let split = bare.len() as int;
    assert(plain[split] == ' ');
    assert(plain.skip(split + 1) =~= part);
    assert(plain.take(split) =~= bare);
    assert(last_at(plain, " "@, split)) by {
        assert(plain.subrange(split, split + 1) =~= " "@);
        assert forall|i: int| i > split implies !occurs_at(plain, " "@, i) by {
            if occurs_at(plain, " "@, i) {
                assert(plain.subrange(i, i + 1)[0] == plain[i]);
                assert(plain[i] == part[i - split - 1]);
                assert(declaration[i - split + at] == part[i - split - 1]);
            }
        }
    }
    lemma_rfind_is(plain, " "@, split);
    lemma_run_length(part, '*');
    let run = run_length(part, '*') as int;
    assert(run == count) by {
        if run < count {
            assert(part[run] == '*');
        }
        if run > count {
            assert(part[count as int] == name[0]);
        }
    }
    assert(part.skip(count as int) =~= name);
    lemma_nothing_to_trim(name);
}

/// A type with its stars is a type, and the same words start it.
proof fn lemma_starred(kind: Seq<char>, count: nat)
    requires
        type_text(kind),
        kind != "const"@,
    ensures
        type_text(kind + stars(count)),
        kind + stars(count) != "const"@,
        trim(without_const(kind + stars(count))) == trim(without_const(kind)) + stars(count),
{
    reveal_strlit("const");
    reveal_strlit("const ");
    let starred = kind + stars(count);
    assert(starred[0] == kind[0]);
    assert forall|i: int| 0 <= i < starred.len() implies #[trigger] starred[i] != '/' && starred[i]
        != ';' && starred[i] != '(' && starred[i] != '{' && starred[i] != '[' by {
        if i < kind.len() {
            assert(starred[i] == kind[i]);
        }
    }
    if count > 0 {
        assert(starred[starred.len() - 1] == '*');
        assert("const"@[4] == 't');
    } else {
        assert(starred =~= kind);
    }
    let bare = without_const(kind);
    if occurs_at(starred, "const "@, 0) {
        assert(starred.subrange(0, 6)[5] == starred[5]);
        assert(starred.subrange(0, 6)[5] == ' ');
        if kind.len() < 6 {
            assert(starred[5] == '*');
        }
        assert(kind.subrange(0, 6) =~= starred.subrange(0, 6));
    }
    if occurs_at(kind, "const "@, 0) {
        assert(kind.subrange(0, 6)[5] == kind[5]);
        assert(kind.len() > 6);
        assert(kind.subrange(0, 6) =~= starred.subrange(0, 6));
        assert(starred.skip(6) =~= kind.skip(6) + stars(count));
    }
    assert(without_const(starred) == bare + stars(count));
    assert(bare.last() == kind.last());
    lemma_trim_start_before(bare, stars(count));
    let start = trim_start(bare);
    assert(trim_end(start) == start);
    if count > 0 {
        assert((start + stars(count)).last() == '*');
    } else {
        assert(start + stars(count) =~= start);
    }
}

/// Pointer stars can bind either way: `T *name;` and `T* name;` declare the same
/// member, whatever white space the type holds and whatever comment follows.
pub proof fn pointer_stars_bind_either_way(
    kind: Seq<char>,
    count: nat,
    name: Seq<char>,
    tail: Seq<char>,
)
    requires
        type_text(kind),
        kind != "const"@,
        plain_name(name),
        only_comment(tail),
    ensures
        declared_member(stars_at_name(kind, count, name, tail)) == Some(
            (trim(without_const(kind)) + stars(count), name),
        ),
        declared_member(stars_at_type(kind, count, name, tail)) == Some(
            (trim(without_const(kind)) + stars(count), name),
        ),
{
    lemma_declared(kind, count, name, tail);
    let starred = kind + stars(count);
    lemma_starred(kind, count);
    lemma_declared(starred, 0, name, tail);
    assert(stars_at_name(starred, 0, name, tail) =~= stars_at_type(kind, count, name, tail));
    assert(trim(without_const(starred)) + stars(0) =~= trim(without_const(starred)));
}

/// A space stands in `s` between a character that is no white space and one that
/// is neither white space nor a mark at the end of a struct's header.
spec fn space_within(s: Seq<char>, i: int, j: int, k: int) -> bool {
    &&& 0 <= i < j < k < s.len()
    &&& !is_white(s[i])
    &&& s[j] == ' '
    &&& !is_white(s[k])
    &&& s[k] != '{'
    &&& s[k] != ';'
}

spec fn has_space_within(s: Seq<char>) -> bool {
    exists|i: int, j: int, k: int| #[trigger] space_within(s, i, j, k)
}

proof fn lemma_space_kept_by_end_char(s: Seq<char>, c: char)
    requires
        has_space_within(s),
        c == '{' || c == ';',
    ensures
        has_space_within(trim_end_char(s, c)),
    decreases s.len(),
{
    if s.len() > 0 && s.last() == c {
        let (i, j, k) = choose|i: int, j: int, k: int| #[trigger] space_within(s, i, j, k);
        assert(space_within(s.drop_last(), i, j, k));
        lemma_space_kept_by_end_char(s.drop_last(), c);
    }
}

proof fn lemma_space_kept_by_end(s: Seq<char>)
    requires
        has_space_within(s),
    ensures
        has_space_within(trim_end(s)),
    decreases s.len(),
{
    if s.len() > 0 && is_white(s.last()) {
        let (i, j, k) = choose|i: int, j: int, k: int| #[trigger] space_within(s, i, j, k);
        assert(space_within(s.drop_last(), i, j, k));
        lemma_space_kept_by_end(s.drop_last());
    }
}

proof fn lemma_space_kept_by_start(s: Seq<char>)
    requires
        has_space_within(s),
    ensures
        has_space_within(trim_start(s)),
    decreases s.len(),
{
    if s.len() > 0 && is_white(s[0]) {
        let (i, j, k) = choose|i: int, j: int, k: int| #[trigger] space_within(s, i, j, k);
        assert(space_within(s.skip(1), i - 1, j - 1, k - 1));
        lemma_space_kept_by_start(s.skip(1));
    }
}

/// What follows `struct` or `union` is no name where a space stands in it.
proof fn lemma_no_struct_name(rest: Seq<char>)
    requires
        has_space_within(rest),
    ensures
        contains(trim(trim_end_char(trim(trim_end_char(rest, '{')), ';')), " "@),
{
    reveal_strlit(" ");
    lemma_space_kept_by_end_char(rest, '{');
    let a = trim_end_char(rest, '{');
    lemma_space_kept_by_start(a);
    lemma_space_kept_by_end(trim_start(a));
    let b = trim(a);
    lemma_space_kept_by_end_char(b, ';');
    let c = trim_end_char(b, ';');
    lemma_space_kept_by_start(c);
    lemma_space_kept_by_end(trim_start(c));
    let name = trim(c);
    let (i, j, k) = choose|i: int, j: int, k: int| #[trigger] space_within(name, i, j, k);
    assert(name.subrange(j, j + 1) =~= " "@);
    assert(occurs_at(name, " "@, j));
}

/// A word that starts a struct's header: what follows it in a member's line
/// holds a space.
proof fn lemma_space_after(kind: Seq<char>, more: Seq<char>, word: Seq<char>, k: int)
    requires
        type_text(kind),
        occurs_at(kind, word + " "@, 0),
        0 <= k < more.len(),
        !is_white(more[k]),
        more[k] != '{',
        more[k] != ';',
    ensures
        has_space_within((kind + " "@ + more).skip(word.len() as int + 1)),
{
    reveal_strlit(" ");
    let n: int = word.len() as int + 1;
    assert(kind.subrange(0, n)[n - 1] == kind[n - 1]);
    assert((word + " "@)[n - 1] == ' ');
    assert(kind.last() == kind[kind.len() - 1]);
    let rest = (kind + " "@ + more).skip(n);
    assert(rest[kind.len() - 1 - n] == kind.last());
    assert(space_within(rest, kind.len() - 1 - n, kind.len() - n, kind.len() + 1 + k - n));
}

/// A member's line is no header of a struct and no end of one.
proof fn lemma_plain_member_line(kind: Seq<char>, count: nat, name: Seq<char>, tail: Seq<char>)
    requires
        type_text(kind),
        kind != "struct"@,
        kind != "union"@,
        plain_name(name),
    ensures
        declared_struct(stars_at_name(kind, count, name, tail)) is None,
        stars_at_name(kind, count, name, tail) != "};"@,
{
    reveal_strlit(" ");
    reveal_strlit(";");
    reveal_strlit("};");
    reveal_strlit("struct");
    reveal_strlit("struct ");
    reveal_strlit("union");
    reveal_strlit("union ");
    let more = stars(count) + name + ";"@ + tail;
    let line = stars_at_name(kind, count, name, tail);
    assert(line =~= kind + " "@ + more);
    assert("struct"@ + " "@ =~= "struct "@);
    assert("union"@ + " "@ =~= "union "@);
    lemma_first_word(kind, more, "struct"@);
    lemma_first_word(kind, more, "union"@);
    assert(more[count as int] == name[0]);
    if occurs_at(line, "struct "@, 0) {
        lemma_space_after(kind, more, "struct"@, count as int);
        lemma_no_struct_name(line.skip(7));
    }
    if occurs_at(line, "union "@, 0) {
        lemma_space_after(kind, more, "union"@, count as int);
        lemma_no_struct_name(line.skip(6));
    }
}

/// Two lines of a header differ only in the side on which a member's stars
/// stand.
pub open spec fn stars_moved(x: Seq<char>, y: Seq<char>) -> bool {
    exists|kind: Seq<char>, count: nat, name: Seq<char>, tail: Seq<char>|
        #![trigger stars_at_name(kind, count, name, tail)]
        #![trigger stars_at_type(kind, count, name, tail)]
        type_text(kind) && kind != "const"@ && kind != "struct"@ && kind != "union"@ && plain_name(
            name,
        ) && only_comment(tail) && trim(x) == stars_at_name(kind, count, name, tail) && trim(y)
            == stars_at_type(kind, count, name, tail)
}

/// Two lines of a header are the same but for the white space round them and
/// the side on which a member's stars stand.
pub open spec fn alike(x: Seq<char>, y: Seq<char>) -> bool {
    trim(x) == trim(y) || stars_moved(x, y) || stars_moved(y, x)
}

/// A line that announces a struct without its body.
pub open spec fn is_forward(raw: Seq<char>) -> bool {
    declared_struct(trim(raw)) matches Some((_, has_body)) && !has_body
}

/// The lines that announce no struct, in order.
pub open spec fn without_forwards(all: Seq<Seq<char>>) -> Seq<Seq<char>>
    decreases all.len(),
{
    if all.len() == 0 {
        Seq::empty()
    } else if is_forward(all.last()) {
        without_forwards(all.drop_last())
    } else {
        without_forwards(all.drop_last()).push(all.last())
    }
}

/// `struct Name;` and `union Name;` announce a struct, with any white space
/// round them.
pub proof fn a_forward_declaration_is_known(raw: Seq<char>, name: Seq<char>)
    requires
        plain_name(name),
        trim(raw) == "struct "@ + name + ";"@ || trim(raw) == "union "@ + name + ";"@,
    ensures
        is_forward(raw),
{
    reveal_strlit(" ");
    reveal_strlit(";");
    reveal_strlit("struct ");
    reveal_strlit("union ");
    let line = trim(raw);
    let rest = name + ";"@;
    if line == "struct "@ + name + ";"@ {
        assert(line.subrange(0, 7) =~= "struct "@);
        assert(line.skip(7) =~= rest);
    } else {
        assert(line.subrange(0, 6) =~= "union "@);
        assert(line.skip(6) =~= rest);
        assert("struct "@[0] == 's');
        if occurs_at(line, "struct "@, 0) {
            assert(line.subrange(0, 7)[0] == line[0]);
        }
    }
    assert(trim_end_char(rest, '{') == rest);
    assert(rest[0] == name[0]);
    lemma_nothing_to_trim(rest);
    assert(rest.drop_last() =~= name);
    assert(name.last() == name[name.len() - 1]);
    assert(trim_end_char(name, ';') == name);
    assert(trim_end_char(rest, ';') == name);
    lemma_nothing_to_trim(name);
    lemma_absent(name, " "@);
    assert(line.last() == ';');
}

proof fn lemma_stars_moved(p: Progress, x: Seq<char>, y: Seq<char>)
    requires
        stars_moved(x, y),
    ensures
        after_line(p, x) == after_line(p, y),
{
    let (kind, count, name, tail) = choose|
        kind: Seq<char>,
        count: nat,
        name: Seq<char>,
        tail: Seq<char>,
    |
        #![trigger stars_at_name(kind, count, name, tail)]
        type_text(kind) && kind != "const"@ && kind != "struct"@ && kind != "union"@ && plain_name(
            name,
        ) && only_comment(tail) && trim(x) == stars_at_name(kind, count, name, tail) && trim(y)
            == stars_at_type(kind, count, name, tail);
    let starred = kind + stars(count);
    pointer_stars_bind_either_way(kind, count, name, tail);
    lemma_starred(kind, count);
    lemma_plain_member_line(kind, count, name, tail);
    reveal_strlit("struct");
    reveal_strlit("union");
    if count > 0 {
        assert(starred[starred.len() - 1] == '*');
        assert("struct"@[5] == 't');
        assert("union"@[4] == 'n');
    } else {
        assert(starred =~= kind);
    }
    lemma_plain_member_line(starred, 0, name, tail);
    assert(stars_at_name(starred, 0, name, tail) =~= stars_at_type(kind, count, name, tail));
}

proof fn lemma_without_forwards(all: Seq<Seq<char>>)
    ensures
        after_lines(without_forwards(all)) == after_lines(all),
    decreases all.len(),
{
    if all.len() > 0 {
        lemma_without_forwards(all.drop_last());
        let kept = without_forwards(all.drop_last());
        assert(kept.push(all.last()).drop_last() =~= kept);
    }
}

proof fn lemma_alike(x: Seq<Seq<char>>, y: Seq<Seq<char>>)
    requires
        x.len() == y.len(),
        forall|i: int| 0 <= i < x.len() ==> alike(#[trigger] x[i], y[i]),
    ensures
        after_lines(x) == after_lines(y),
    decreases x.len(),
{
    if x.len() > 0 {
        let m = x.drop_last();
        let n = y.drop_last();
        assert forall|i: int| 0 <= i < m.len() implies alike(#[trigger] m[i], n[i]) by {
            assert(alike(x[i], y[i]));
        }
        lemma_alike(m, n);
        let last = x.len() - 1;
        assert(alike(x[last], y[last]));
        if stars_moved(x[last], y[last]) {
            lemma_stars_moved(after_lines(m), x[last], y[last]);
        } else if stars_moved(y[last], x[last]) {
            lemma_stars_moved(after_lines(m), y[last], x[last]);
        }
    }
}

/// Of two headers whose lines, forward declarations apart, are alike but for
/// the side on which stars stand, the same structs are read, and the offset of
/// `Il2CppClass::static_fields` or its error is the same: forward declarations
/// may be put in or taken out anywhere, and stars may bind either way.
pub proof fn forwards_and_sides_of_stars_do_not_count(a: Seq<char>, b: Seq<char>, arch: Arch)
    requires
        without_forwards(lines(a)).len() == without_forwards(lines(b)).len(),
        forall|i: int|
            0 <= i < without_forwards(lines(a)).len() ==> alike(
                #[trigger] without_forwards(lines(a))[i],
                without_forwards(lines(b))[i],
            ),
    ensures
        structs_of(a) == structs_of(b),
        (HeaderView { arch, structs: structs_of(a) }).static_fields() == (HeaderView {
            arch,
            structs: structs_of(b),
        }).static_fields(),
{
    lemma_without_forwards(lines(a));
    lemma_without_forwards(lines(b));
    lemma_alike(without_forwards(lines(a)), without_forwards(lines(b)));
}

} // verus!
