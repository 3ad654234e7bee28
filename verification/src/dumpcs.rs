//! Index of `dump.cs`: every class, every field, every offset.
//!
//! The whole file is read once into a map, so a field is either found or
//! genuinely absent, however many lines its class spans.
//!
//! Two details the format forces on us:
//!
//!   * Nested types appear as their own top-level blocks named `Outer.Inner`,
//!     which is why `NetworkedPlayerInfo.PlayerOutfit` is a valid lookup key.
//!   * Static and instance fields live in the same block but in *different*
//!     offset spaces -- static offsets are relative to the class's
//!     `static_fields` block. `GameData` has a static `RoundsPlayedInSession`
//!     at +16 and an instance `AllPlayers` also at +16. Asking for the wrong
//!     one gives a plausible number that points at nothing.

use vstd::hash_map::StringHashMap;
use vstd::prelude::*;
use vstd::slice::slice_subrange;

use crate::error::read_to_string_lossy;
use crate::numbers::{parse_integer, parsed};
use crate::text::{
    before, chars_of, contains, find_part, is_white, lemma_absent, lemma_first_word,
    lemma_nothing_to_trim, lemma_rfind_is, lines, lossy_text, maybe_text, occurs_at, part_views,
    rfind, rfind_part, same_text, split_lines, str_views, string_of, strip_prefix, trim, trim_end,
    trim_end_char, trimmed, trimmed_end, trimmed_end_char, up_to, without_prefix,
};

verus! {

#[derive(Debug, Clone)]
pub struct Field {
    pub offset: i64,
    pub is_static: bool,
    pub field_type: String,
}

/// What a [`Field`] says.
pub struct FieldView {
    pub offset: i64,
    pub is_static: bool,
    pub field_type: Seq<char>,
}

impl View for Field {
    type V = FieldView;

    open spec fn view(&self) -> FieldView {
        FieldView {
            offset: self.offset,
            is_static: self.is_static,
            field_type: self.field_type@,
        }
    }
}

#[derive(Debug, Clone)]
pub struct Class {
    /// Declaration order preserved: useful when reporting near-misses.
    pub fields: Vec<(String, Field)>,
    /// The RVAs of the methods, in declaration order.
    pub methods: Vec<(String, u64)>,
    pub line_span: usize,
}

/// What a [`Class`] says.
pub struct ClassView {
    pub fields: Seq<(Seq<char>, FieldView)>,
    pub methods: Seq<(Seq<char>, u64)>,
    pub line_span: int,
}

pub open spec fn field_views(fields: Seq<(String, Field)>) -> Seq<(Seq<char>, FieldView)> {
    fields.map_values(|f: (String, Field)| (f.0@, f.1@))
}

pub open spec fn method_views(methods: Seq<(String, u64)>) -> Seq<(Seq<char>, u64)> {
    methods.map_values(|m: (String, u64)| (m.0@, m.1))
}

impl View for Class {
    type V = ClassView;

    open spec fn view(&self) -> ClassView {
        ClassView {
            fields: field_views(self.fields@),
            methods: method_views(self.methods@),
            line_span: self.line_span as int,
        }
    }
}

/// A class with nothing in it.
pub open spec fn empty_class() -> ClassView {
    ClassView { fields: Seq::empty(), methods: Seq::empty(), line_span: 0 }
}

impl Default for Class {
    fn default() -> (r: Self)
        ensures
            r@ == empty_class(),
    {
        let r = Class { fields: Vec::new(), methods: Vec::new(), line_span: 0 };
        assert(r@.fields =~= empty_class().fields);
        assert(r@.methods =~= empty_class().methods);
        r
    }
}

/// The first field from `k` on that has this name, of those that are static or
/// not as `wanted` says, where it says so.
pub open spec fn field_from(
    fields: Seq<(Seq<char>, FieldView)>,
    name: Seq<char>,
    wanted: Option<bool>,
    k: int,
) -> Option<FieldView>
    decreases fields.len() - k,
{
    if k < 0 || k >= fields.len() {
        None
    } else if fields[k].0 == name && (wanted is None || wanted == Some(fields[k].1.is_static)) {
        Some(fields[k].1)
    } else {
        field_from(fields, name, wanted, k + 1)
    }
}

/// The first method from `k` on that has this name.
pub open spec fn method_from(methods: Seq<(Seq<char>, u64)>, name: Seq<char>, k: int) -> Option<
    u64,
>
    decreases methods.len() - k,
{
    if k < 0 || k >= methods.len() {
        None
    } else if methods[k].0 == name {
        Some(methods[k].1)
    } else {
        method_from(methods, name, k + 1)
    }
}

impl ClassView {
    /// Instance field by name, falling back to a static of the same name.
    pub open spec fn field(self, name: Seq<char>) -> Option<FieldView> {
        match field_from(self.fields, name, Some(false), 0) {
            Some(field) => Some(field),
            None => field_from(self.fields, name, None, 0),
        }
    }

    pub open spec fn static_field(self, name: Seq<char>) -> Option<FieldView> {
        field_from(self.fields, name, Some(true), 0)
    }
}

/// The view of what a search found.
pub open spec fn found_field(field: Option<&Field>) -> Option<FieldView> {
    match field {
        Some(field) => Some(field@),
        None => None,
    }
}

impl Class {
    fn find(&self, name: &str, wanted: Option<bool>) -> (r: Option<&Field>)
        ensures
            found_field(r) == field_from(self@.fields, name@, wanted, 0),
    {
        let mut k: usize = 0;
        while k < self.fields.len()
            invariant
                k <= self.fields@.len(),
                field_from(self@.fields, name@, wanted, k as int) == field_from(
                    self@.fields,
                    name@,
                    wanted,
                    0,
                ),
            decreases self.fields@.len() - k,
        {
            let entry = &self.fields[k];
            assert(self@.fields[k as int] == (entry.0@, entry.1@));
            let kind_fits = match wanted {
                Some(is_static) => is_static == entry.1.is_static,
                None => true,
            };
            if kind_fits && same_text(entry.0.as_str(), name) {
                return Some(&entry.1);
            }
            k += 1;
        }
        None
    }

    /// Instance field by name, falling back to a static of the same name.
    pub fn field(&self, name: &str) -> (r: Option<&Field>)
        ensures
            found_field(r) == self@.field(name@),
    {
        match self.find(name, Some(false)) {
            Some(field) => Some(field),
            None => self.find(name, None),
        }
    }

    pub fn static_field(&self, name: &str) -> (r: Option<&Field>)
        ensures
            found_field(r) == self@.static_field(name@),
    {
        self.find(name, Some(true))
    }

    /// The names of the fields, in declaration order.
    pub fn field_names(&self) -> (r: Vec<&str>)
        ensures
            str_views(r@) == self@.fields.map_values(|f: (Seq<char>, FieldView)| f.0),
    {
        let mut names: Vec<&str> = Vec::new();
        for i in 0..self.fields.len()
            invariant
                names@.len() == i,
                forall|j: int| 0 <= j < i ==> (#[trigger] names@[j])@ == self.fields@[j].0@,
        {
            names.push(self.fields[i].0.as_str());
        }
        assert(str_views(names@) =~= self@.fields.map_values(|f: (Seq<char>, FieldView)| f.0));
        names
    }

    /// RVA of the first method of this name.
    pub fn method(&self, name: &str) -> (r: Option<u64>)
        ensures
            r == method_from(self@.methods, name@, 0),
    {
        let mut k: usize = 0;
        while k < self.methods.len()
            invariant
                k <= self.methods@.len(),
                method_from(self@.methods, name@, k as int) == method_from(
                    self@.methods,
                    name@,
                    0,
                ),
            decreases self.methods@.len() - k,
        {
            let entry = &self.methods[k];
            assert(self@.methods[k as int] == (entry.0@, entry.1));
            if same_text(entry.0.as_str(), name) {
                return Some(entry.1);
            }
            k += 1;
        }
        None
    }
}

/// `s` without the access modifier it starts with.
pub open spec fn after_access(s: Seq<char>) -> Seq<char> {
    if let Some(rest) = strip_prefix(s, "public "@) {
        rest
    } else if let Some(rest) = strip_prefix(s, "private "@) {
        rest
    } else if let Some(rest) = strip_prefix(s, "internal "@) {
        rest
    } else if let Some(rest) = strip_prefix(s, "protected internal "@) {
        rest
    } else if let Some(rest) = strip_prefix(s, "protected "@) {
        rest
    } else {
        s
    }
}

/// `s` without the one type modifier it starts with.
pub open spec fn after_type_modifier(s: Seq<char>) -> Option<Seq<char>> {
    if let Some(rest) = strip_prefix(s, "static "@) {
        Some(rest)
    } else if let Some(rest) = strip_prefix(s, "abstract "@) {
        Some(rest)
    } else if let Some(rest) = strip_prefix(s, "sealed "@) {
        Some(rest)
    } else if let Some(rest) = strip_prefix(s, "readonly "@) {
        Some(rest)
    } else {
        strip_prefix(s, "unsafe "@)
    }
}

/// `s` without the field modifier it starts with, `static` apart.
pub open spec fn after_field_modifier(s: Seq<char>) -> Option<Seq<char>> {
    if let Some(rest) = strip_prefix(s, "readonly "@) {
        Some(rest)
    } else if let Some(rest) = strip_prefix(s, "const "@) {
        Some(rest)
    } else if let Some(rest) = strip_prefix(s, "volatile "@) {
        Some(rest)
    } else {
        strip_prefix(s, "unsafe "@)
    }
}

pub proof fn lemma_modifiers_shorten(s: Seq<char>)
    ensures
        after_type_modifier(s) matches Some(rest) ==> rest.len() < s.len(),
        after_field_modifier(s) matches Some(rest) ==> rest.len() < s.len(),
        strip_prefix(s, "static "@) matches Some(rest) ==> rest.len() < s.len(),
{
    reveal_strlit("static ");
    reveal_strlit("abstract ");
    reveal_strlit("sealed ");
    reveal_strlit("readonly ");
    reveal_strlit("unsafe ");
    reveal_strlit("const ");
    reveal_strlit("volatile ");
}

/// `s` without the type modifiers it starts with.
pub open spec fn after_type_modifiers(s: Seq<char>) -> Seq<char>
    decreases s.len(),
{
    proof {
        lemma_modifiers_shorten(s);
    }
    match after_type_modifier(s) {
        Some(rest) => after_type_modifiers(rest),
        None => s,
    }
}

/// `s` without the field modifiers it starts with, and whether `static` is one of them.
pub open spec fn after_field_modifiers(s: Seq<char>, is_static: bool) -> (Seq<char>, bool)
    decreases s.len(),
{
    proof {
        lemma_modifiers_shorten(s);
    }
    match strip_prefix(s, "static "@) {
        Some(rest) => after_field_modifiers(rest, true),
        None => match after_field_modifier(s) {
            Some(rest) => after_field_modifiers(rest, is_static),
            None => (s, is_static),
        },
    }
}

/// What follows the keyword that declares a type.
pub open spec fn after_keyword(s: Seq<char>) -> Option<Seq<char>> {
    if let Some(rest) = strip_prefix(s, "class "@) {
        Some(rest)
    } else if let Some(rest) = strip_prefix(s, "struct "@) {
        Some(rest)
    } else if let Some(rest) = strip_prefix(s, "interface "@) {
        Some(rest)
    } else {
        strip_prefix(s, "enum "@)
    }
}

/// The name of the type that a line declares, where it declares one. Such a
/// line starts at the first column; its comment and its base types are no part
/// of the name.
pub open spec fn declared_type(line: Seq<char>) -> Option<Seq<char>> {
    if line.len() == 0 || line[0] == '\t' || line[0] == ' ' {
        None
    } else {
        let body = trim_end(before(line, "//"@));
        match after_keyword(after_type_modifiers(after_access(body))) {
            None => None,
            Some(rest) => {
                let name = trim(trim_end_char(trim(before(rest, " : "@)), '{'));
                if name.len() == 0 {
                    None
                } else {
                    Some(name)
                }
            },
        }
    }
}

/// The name and type of the field that `declaration` declares. The name is the
/// last word: field names never contain a space, but generic type arguments do.
pub open spec fn named_field(declaration: Seq<char>, offset: i64) -> Option<
    (Seq<char>, FieldView),
> {
    let (rest, is_static) = after_field_modifiers(after_access(declaration), false);
    match rfind(rest, " "@) {
        None => None,
        Some(at) => {
            let name = trim(rest.skip(at + 1));
            let field_type = trim(rest.take(at));
            if name.len() == 0 || field_type.len() == 0 {
                None
            } else {
                Some((name, FieldView { offset, is_static, field_type }))
            }
        },
    }
}

/// The field that a line declares as `\t<modifiers><type> <name>; // 0xNN`. An
/// initialiser is no part of the declaration.
pub open spec fn declared_field(line: Seq<char>) -> Option<(Seq<char>, FieldView)> {
    if line.len() == 0 || line[0] != '\t' {
        None
    } else {
        let body = line.skip(1);
        if body.len() > 0 && (body[0] == '\t' || body[0] == '[') || occurs_at(body, "//"@, 0) {
            None
        } else {
            match rfind(body, "; // "@) {
                None => None,
                Some(at) => match strip_prefix(trim(body.skip(at + 5)), "0x"@) {
                    None => None,
                    Some(hex) => match parsed(hex, 16, i64::MIN as int, i64::MAX as int) {
                        None => None,
                        Some(offset) => named_field(
                            before(body.take(at), " = "@),
                            offset as i64,
                        ),
                    },
                },
            }
        }
    }
}

/// The address in a `\t// RVA: 0xNN Offset: ...` line, which stands before the
/// line of the method it belongs to.
pub open spec fn reported_rva(line: Seq<char>) -> Option<u64> {
    match strip_prefix(line, "\t// RVA: 0x"@) {
        None => None,
        Some(rest) => match parsed(before(rest, " "@), 16, 0, u64::MAX as int) {
            None => None,
            Some(rva) => Some(rva as u64),
        },
    }
}

/// The name of the method that a line declares: the last word before its
/// parameters.
pub open spec fn declared_method(line: Seq<char>) -> Option<Seq<char>> {
    if line.len() == 0 || line[0] != '\t' || !crate::text::contains(line, "("@) {
        None
    } else {
        let head = before(line.skip(1), "("@);
        let name = match rfind(head, " "@) {
            Some(at) => head.skip(at + 1),
            None => head,
        };
        if name.len() == 0 {
            None
        } else {
            Some(name)
        }
    }
}

/// The classes that have been read, the one that is being read, and the address
/// that the line before reported.
pub struct Progress {
    pub classes: Map<Seq<char>, ClassView>,
    pub current: Option<(Seq<char>, ClassView)>,
    pub rva: Option<u64>,
}

/// The classes with the one that is being read among them. A later class
/// replaces an earlier one of the same name.
pub open spec fn closed_classes(p: Progress) -> Map<Seq<char>, ClassView> {
    match p.current {
        Some((name, class)) => p.classes.insert(name, class),
        None => p.classes,
    }
}

/// A class after one more of its lines.
pub open spec fn class_after(class: ClassView, rva: Option<u64>, line: Seq<char>) -> ClassView {
    ClassView {
        fields: match declared_field(line) {
            Some(field) => class.fields.push(field),
            None => class.fields,
        },
        methods: if rva is Some && declared_method(line) is Some {
            class.methods.push((declared_method(line)->0, rva->0))
        } else {
            class.methods
        },
        line_span: class.line_span + 1,
    }
}

/// What has been read after one more line.
pub open spec fn after_line(p: Progress, line: Seq<char>) -> Progress {
    match declared_type(line) {
        Some(name) => Progress {
            classes: closed_classes(p),
            current: Some((name, empty_class())),
            rva: None,
        },
        None => Progress {
            classes: p.classes,
            current: match p.current {
                Some((name, class)) => Some((name, class_after(class, p.rva, line))),
                None => None,
            },
            rva: reported_rva(line),
        },
    }
}

/// What has been read after these lines.
pub open spec fn after_lines(all: Seq<Seq<char>>) -> Progress
    decreases all.len(),
{
    if all.len() == 0 {
        Progress { classes: Map::empty(), current: None, rva: None }
    } else {
        after_line(after_lines(all.drop_last()), all.last())
    }
}

/// The classes that a `dump.cs` declares, by name.
pub open spec fn classes_of(text: Seq<char>) -> Map<Seq<char>, ClassView> {
    closed_classes(after_lines(lines(text)))
}

fn skip_access<'a>(s: &'a [char]) -> (r: &'a [char])
    ensures
        r@ == after_access(s@),
{
    if let Some(rest) = without_prefix(s, "public ") {
        rest
    } else if let Some(rest) = without_prefix(s, "private ") {
        rest
    } else if let Some(rest) = without_prefix(s, "internal ") {
        rest
    } else if let Some(rest) = without_prefix(s, "protected internal ") {
        rest
    } else if let Some(rest) = without_prefix(s, "protected ") {
        rest
    } else {
        s
    }
}

/// The view of an optional slice.
pub open spec fn slice_view(s: Option<&[char]>) -> Option<Seq<char>> {
    match s {
        Some(s) => Some(s@),
        None => None,
    }
}

fn skip_type_modifier<'a>(s: &'a [char]) -> (r: Option<&'a [char]>)
    ensures
        slice_view(r) == after_type_modifier(s@),
{
    if let Some(rest) = without_prefix(s, "static ") {
        Some(rest)
    } else if let Some(rest) = without_prefix(s, "abstract ") {
        Some(rest)
    } else if let Some(rest) = without_prefix(s, "sealed ") {
        Some(rest)
    } else if let Some(rest) = without_prefix(s, "readonly ") {
        Some(rest)
    } else {
        without_prefix(s, "unsafe ")
    }
}

fn skip_field_modifier<'a>(s: &'a [char]) -> (r: Option<&'a [char]>)
    ensures
        slice_view(r) == after_field_modifier(s@),
{
    if let Some(rest) = without_prefix(s, "readonly ") {
        Some(rest)
    } else if let Some(rest) = without_prefix(s, "const ") {
        Some(rest)
    } else if let Some(rest) = without_prefix(s, "volatile ") {
        Some(rest)
    } else {
        without_prefix(s, "unsafe ")
    }
}

fn skip_keyword<'a>(s: &'a [char]) -> (r: Option<&'a [char]>)
    ensures
        slice_view(r) == after_keyword(s@),
{
    if let Some(rest) = without_prefix(s, "class ") {
        Some(rest)
    } else if let Some(rest) = without_prefix(s, "struct ") {
        Some(rest)
    } else if let Some(rest) = without_prefix(s, "interface ") {
        Some(rest)
    } else {
        without_prefix(s, "enum ")
    }
}

/// Recognises the type-declaration lines Il2CppDumper emits at column 0.
fn parse_type_declaration(line: &[char]) -> (r: Option<String>)
    ensures
        maybe_text(r) == declared_type(line@),
{
    if line.len() == 0 || line[0] == '\t' || line[0] == ' ' {
        return None;
    }
    let body = trimmed_end(up_to(line, "//"));
    let mut rest = skip_access(body);
    let ghost start = rest@;
    loop
        invariant
            after_type_modifiers(rest@) == after_type_modifiers(start),
        ensures
            rest@ == after_type_modifiers(start),
        decreases rest@.len(),
    {
        proof {
            lemma_modifiers_shorten(rest@);
        }
        match skip_type_modifier(rest) {
            Some(stripped) => {
                rest = stripped;
            },
            None => {
                break;
            },
        }
    }
    match skip_keyword(rest) {
        None => None,
        Some(declared) => {
            let name = trimmed(trimmed_end_char(trimmed(up_to(declared, " : ")), '{'));
            if name.len() == 0 {
                None
            } else {
                Some(string_of(name))
            }
        },
    }
}

/// The view of an optional named field.
pub open spec fn named_view(field: Option<(String, Field)>) -> Option<(Seq<char>, FieldView)> {
    match field {
        Some((name, field)) => Some((name@, field@)),
        None => None,
    }
}

fn parse_named_field(declaration: &[char], offset: i64) -> (r: Option<(String, Field)>)
    ensures
        named_view(r) == named_field(declaration@, offset),
{
    proof {
        reveal_strlit(" ");
    }
    let mut rest = skip_access(declaration);
    let mut is_static = false;
    let ghost start = rest@;
    loop
        invariant
            after_field_modifiers(rest@, is_static) == after_field_modifiers(start, false),
        ensures
            (rest@, is_static) == after_field_modifiers(start, false),
        decreases rest@.len(),
    {
        proof {
            lemma_modifiers_shorten(rest@);
        }
        if let Some(stripped) = without_prefix(rest, "static ") {
            rest = stripped;
            is_static = true;
        } else if let Some(stripped) = skip_field_modifier(rest) {
            rest = stripped;
        } else {
            break;
        }
    }
    match rfind_part(rest, " ") {
        None => None,
        Some(at) => {
            let limit: usize = rest.len();
            let name = trimmed(slice_subrange(rest, at + 1, limit));
            let field_type = trimmed(slice_subrange(rest, 0, at));
            if name.len() == 0 || field_type.len() == 0 {
                None
            } else {
                Some(
                    (
                        string_of(name),
                        Field { offset, is_static, field_type: string_of(field_type) },
                    ),
                )
            }
        },
    }
}

/// Recognises `\t<modifiers><type> <name>; // 0xNN`.
fn parse_field(line: &[char]) -> (r: Option<(String, Field)>)
    ensures
        named_view(r) == declared_field(line@),
{
    proof {
        reveal_strlit("; // ");
    }
    if line.len() == 0 || line[0] != '\t' {
        return None;
    }
    let body = slice_subrange(line, 1, line.len());
    let limit: usize = body.len();
    if limit > 0 && (body[0] == '\t' || body[0] == '[') {
        return None;
    }
    if without_prefix(body, "//").is_some() {
        return None;
    }
    match rfind_part(body, "; // ") {
        None => None,
        Some(at) => {
            let comment = trimmed(slice_subrange(body, at + 5, limit));
            match without_prefix(comment, "0x") {
                None => None,
                Some(hex) => match parse_integer(hex, 16, i64::MIN as i128, i64::MAX as i128) {
                    None => None,
                    Some(offset) => parse_named_field(
                        up_to(slice_subrange(body, 0, at), " = "),
                        offset as i64,
                    ),
                },
            }
        },
    }
}

fn parse_rva(line: &[char]) -> (r: Option<u64>)
    ensures
        r == reported_rva(line@),
{
    match without_prefix(line, "\t// RVA: 0x") {
        None => None,
        Some(rest) => match parse_integer(up_to(rest, " "), 16, 0, u64::MAX as i128) {
            None => None,
            Some(rva) => Some(rva as u64),
        },
    }
}

fn parse_method(line: &[char]) -> (r: Option<String>)
    ensures
        maybe_text(r) == declared_method(line@),
{
    proof {
        reveal_strlit(" ");
    }
    if line.len() == 0 || line[0] != '\t' || find_part(line, "(").is_none() {
        return None;
    }
    let head = up_to(slice_subrange(line, 1, line.len()), "(");
    let limit: usize = head.len();
    let name = match rfind_part(head, " ") {
        Some(at) => slice_subrange(head, at + 1, limit),
        None => head,
    };
    if name.len() == 0 {
        None
    } else {
        Some(string_of(name))
    }
}

pub struct Dump {
    classes: StringHashMap<Class>,
}

pub open spec fn class_views(classes: Map<Seq<char>, Class>) -> Map<Seq<char>, ClassView> {
    classes.map_values(|c: Class| c@)
}

impl View for Dump {
    type V = Map<Seq<char>, ClassView>;

    closed spec fn view(&self) -> Map<Seq<char>, ClassView> {
        class_views(self.classes@)
    }
}

fn keep_class(classes: &mut StringHashMap<Class>, name: String, class: Class)
    ensures
        class_views(final(classes)@) == class_views(old(classes)@).insert(name@, class@),
{
    let ghost before = classes@;
    classes.insert(name, class);
    assert(class_views(classes@) =~= class_views(before).insert(name@, class@));
}

fn read_line(class: &mut Class, rva: Option<u64>, line: &[char])
    requires
        old(class).line_span < usize::MAX,
    ensures
        final(class)@ == class_after(old(class)@, rva, line@),
{
    let ghost start = class@;
    class.line_span = class.line_span + 1;
    if let Some((name, field)) = parse_field(line) {
        class.fields.push((name, field));
        assert(class@.fields =~= start.fields.push((name@, field@)));
    }
    if let Some(address) = rva {
        if let Some(name) = parse_method(line) {
            class.methods.push((name, address));
            assert(class@.methods =~= start.methods.push((name@, address)));
        }
    }
}

spec fn current_view(current: Option<(String, Class)>) -> Option<(Seq<char>, ClassView)> {
    match current {
        Some((name, class)) => Some((name@, class@)),
        None => None,
    }
}

impl Dump {
    /// Reads the contents of a `dump.cs`.
    pub fn load(contents: &[u8]) -> (r: Self)
        ensures
            r@ == classes_of(lossy_text(contents@)),
    {
        let text: String = read_to_string_lossy(contents);
        Self::parse(text.as_str())
    }

    pub fn parse(text: &str) -> (r: Self)
        ensures
            r@ == classes_of(text@),
    {
        let chars: Vec<char> = chars_of(text);
        let all = split_lines(chars.as_slice());
        let ghost parts = lines(text@);
        let mut classes: StringHashMap<Class> = StringHashMap::new();
        let mut current: Option<(String, Class)> = None;
        let mut rva: Option<u64> = None;
        assert(class_views(classes@) =~= Map::empty());
        for i in 0..all.len()
            invariant
                part_views(all@) == parts,
                current matches Some((_, class)) ==> class.line_span <= i,
                after_lines(parts.take(i as int)) == (Progress {
                    classes: class_views(classes@),
                    current: current_view(current),
                    rva,
                }),
        {
            let line = all[i];
            assert(line@ == parts[i as int]);
            assert(parts.take(i + 1).drop_last() =~= parts.take(i as int));
            assert(parts.take(i + 1).last() == line@);
            match parse_type_declaration(line) {
                Some(name) => {
                    if let Some((previous_name, previous)) = current {
                        keep_class(&mut classes, previous_name, previous);
                    }
                    current = Some((name, Class::default()));
                    rva = None;
                },
                None => {
                    current = match current {
                        Some((name, previous)) => {
                            let mut class = previous;
                            read_line(&mut class, rva, line);
                            Some((name, class))
                        },
                        None => None,
                    };
                    rva = parse_rva(line);
                },
            }
        }
        assert(parts.take(parts.len() as int) =~= parts);
        if let Some((name, class)) = current {
            keep_class(&mut classes, name, class);
        }
        Self { classes }
    }
}

/// The first of the candidates from `k` on that names a field of the class,
/// as `(offset, which)`.
pub open spec fn candidate_from(
    class: ClassView,
    class_name: Seq<char>,
    candidates: Seq<Seq<char>>,
    k: int,
) -> Option<(i64, Seq<char>)>
    decreases candidates.len() - k,
{
    if k < 0 || k >= candidates.len() {
        None
    } else {
        match class.field(candidates[k]) {
            Some(field) => Some((field.offset, class_name + "."@ + candidates[k])),
            None => candidate_from(class, class_name, candidates, k + 1),
        }
    }
}

/// As [`candidate_from`], for static fields.
pub open spec fn static_candidate_from(
    class: ClassView,
    class_name: Seq<char>,
    candidates: Seq<Seq<char>>,
    k: int,
) -> Option<(i64, Seq<char>)>
    decreases candidates.len() - k,
{
    if k < 0 || k >= candidates.len() {
        None
    } else {
        match class.static_field(candidates[k]) {
            Some(field) => Some((field.offset, class_name + "."@ + candidates[k] + " (static)"@)),
            None => static_candidate_from(class, class_name, candidates, k + 1),
        }
    }
}

/// The first matching `class.field` from the candidates, as `(offset, which)`.
pub open spec fn field_of(
    dump: Map<Seq<char>, ClassView>,
    class: Seq<char>,
    candidates: Seq<Seq<char>>,
) -> Option<(i64, Seq<char>)> {
    if dump.contains_key(class) {
        candidate_from(dump[class], class, candidates, 0)
    } else {
        None
    }
}

/// The first matching static `class.field` from the candidates, as `(offset, which)`.
pub open spec fn static_field_of(
    dump: Map<Seq<char>, ClassView>,
    class: Seq<char>,
    candidates: Seq<Seq<char>>,
) -> Option<(i64, Seq<char>)> {
    if dump.contains_key(class) {
        static_candidate_from(dump[class], class, candidates, 0)
    } else {
        None
    }
}

/// The address that a dump reports for `class.method`.
pub open spec fn method_of(
    dump: Map<Seq<char>, ClassView>,
    class: Seq<char>,
    method: Seq<char>,
) -> Option<u64> {
    if dump.contains_key(class) {
        method_from(dump[class].methods, method, 0)
    } else {
        None
    }
}

/// The view of what a search over candidates found.
pub open spec fn found_view(found: Option<(i64, String)>) -> Option<(i64, Seq<char>)> {
    match found {
        Some((offset, which)) => Some((offset, which@)),
        None => None,
    }
}

impl Dump {
    pub fn class(&self, name: &str) -> (r: Option<&Class>)
        ensures
            match r {
                Some(class) => self@.contains_key(name@) && self@[name@] == class@,
                None => !self@.contains_key(name@),
            },
    {
        self.classes.get(name)
    }

    pub fn class_count(&self) -> (r: usize)
        ensures
            r == self@.len(),
    {
        broadcast use vstd::hash_map::group_hash_map_axioms;

        assert(self@.dom() =~= self.classes@.dom());
        self.classes.len()
    }

    /// First matching `class.field` from the candidates, as `(offset, which)`.
    ///
    /// Callers pass several names because Among Us renames fields without
    /// moving them: in 2026.8.18 `InnerNetClient.GameMode` became
    /// `NetworkMode`, same offset 40.
    pub fn find_field(&self, class: &str, candidates: &[&str]) -> (r: Option<(i64, String)>)
        ensures
            found_view(r) == field_of(self@, class@, str_views(candidates@)),
    {
        let class_info = match self.class(class) {
            Some(found) => found,
            None => {
                return None;
            },
        };
        let ghost names = str_views(candidates@);
        let mut k: usize = 0;
        while k < candidates.len()
            invariant
                k <= candidates@.len(),
                names == str_views(candidates@),
                self@.contains_key(class@),
                self@[class@] == class_info@,
                candidate_from(class_info@, class@, names, k as int) == field_of(
                    self@,
                    class@,
                    names,
                ),
            decreases candidates@.len() - k,
        {
            assert(names[k as int] == candidates@[k as int]@);
            if let Some(field) = class_info.field(candidates[k]) {
                let mut which = class.to_owned();
                which.append(".");
                which.append(candidates[k]);
                return Some((field.offset, which));
            }
            k += 1;
        }
        None
    }

    pub fn find_static_field(&self, class: &str, candidates: &[&str]) -> (r: Option<(i64, String)>)
        ensures
            found_view(r) == static_field_of(self@, class@, str_views(candidates@)),
    {
        let class_info = match self.class(class) {
            Some(found) => found,
            None => {
                return None;
            },
        };
        let ghost names = str_views(candidates@);
        let mut k: usize = 0;
        while k < candidates.len()
            invariant
                k <= candidates@.len(),
                names == str_views(candidates@),
                self@.contains_key(class@),
                self@[class@] == class_info@,
                static_candidate_from(class_info@, class@, names, k as int) == static_field_of(
                    self@,
                    class@,
                    names,
                ),
            decreases candidates@.len() - k,
        {
            assert(names[k as int] == candidates@[k as int]@);
            if let Some(field) = class_info.static_field(candidates[k]) {
                let mut which = class.to_owned();
                which.append(".");
                which.append(candidates[k]);
                which.append(" (static)");
                return Some((field.offset, which));
            }
            k += 1;
        }
        None
    }

    /// RVA that the dump reports for `class.method`.
    pub fn method_rva(&self, class: &str, method: &str) -> (r: Option<u64>)
        ensures
            r == method_of(self@, class@, method@),
    {
        match self.class(class) {
            Some(found) => found.method(method),
            None => None,
        }
    }
}

impl Default for Dump {
    fn default() -> (r: Self)
        ensures
            r@ == Map::<Seq<char>, ClassView>::empty(),
    {
        let r = Dump { classes: StringHashMap::new() };
        assert(r@ =~= Map::empty());
        r
    }
}

/// A field that was found is one of the class, of the name and kind asked for.
proof fn lemma_field_from(
    fields: Seq<(Seq<char>, FieldView)>,
    name: Seq<char>,
    wanted: Option<bool>,
    k: int,
)
    requires
        0 <= k,
    ensures
        field_from(fields, name, wanted, k) matches Some(field) ==> fields.contains((name, field))
            && (wanted is None || wanted == Some(field.is_static)),
        field_from(fields, name, wanted, k) is None ==> forall|i: int|
            k <= i < fields.len() && (#[trigger] fields[i]).0 == name ==> wanted is Some && wanted
                != Some(fields[i].1.is_static),
    decreases fields.len() - k,
{
    if k < fields.len() {
        if fields[k].0 == name && (wanted is None || wanted == Some(fields[k].1.is_static)) {
            assert(fields[k] == (name, fields[k].1));
        } else {
            lemma_field_from(fields, name, wanted, k + 1);
        }
    }
}

/// Static and instance fields are never confused: what is found as a static
/// field is one, and where there is an instance field of the name, a plain
/// search gives an instance field, whatever statics share the name.
pub proof fn static_and_instance_fields_are_kept_apart(class: ClassView, name: Seq<char>)
    ensures
        class.static_field(name) matches Some(field) ==> field.is_static && class.fields.contains(
            (name, field),
        ),
        class.static_field(name) is None <==> !exists|i: int|
            0 <= i < class.fields.len() && (#[trigger] class.fields[i]).0 == name
                && class.fields[i].1.is_static,
        (exists|i: int|
            0 <= i < class.fields.len() && (#[trigger] class.fields[i]).0 == name
                && !class.fields[i].1.is_static) ==> class.field(name) is Some && !class.field(
            name,
        )->0.is_static,
        class.field(name) is None <==> !exists|i: int|
            0 <= i < class.fields.len() && (#[trigger] class.fields[i]).0 == name,
{
    lemma_field_from(class.fields, name, Some(true), 0);
    lemma_field_from(class.fields, name, Some(false), 0);
    lemma_field_from(class.fields, name, None, 0);
}

/// The first field that fits is the one found.
proof fn lemma_field_from_is(
    fields: Seq<(Seq<char>, FieldView)>,
    name: Seq<char>,
    wanted: Option<bool>,
    k: int,
    at: int,
)
    requires
        0 <= k <= at < fields.len(),
        fields[at].0 == name,
        wanted is None || wanted == Some(fields[at].1.is_static),
        forall|i: int|
            k <= i < at && (#[trigger] fields[i]).0 == name ==> wanted is Some && wanted != Some(
                fields[i].1.is_static,
            ),
    ensures
        field_from(fields, name, wanted, k) == Some(fields[at].1),
    decreases at - k,
{
    if k < at {
        lemma_field_from_is(fields, name, wanted, k + 1, at);
    }
}

/// The lines from `opening` to before `end` are the block of `class`: the first
/// of them declares it and no other declares a type.
pub open spec fn block_of(
    all: Seq<Seq<char>>,
    class: Seq<char>,
    opening: int,
    end: int,
) -> bool {
    &&& 0 <= opening < end <= all.len()
    &&& declared_type(all[opening]) == Some(class)
    &&& forall|i: int| opening < i < end ==> declared_type(#[trigger] all[i]) is None
}

/// No line from `start` to before `end` declares a field of this name.
pub open spec fn undeclared_between(
    all: Seq<Seq<char>>,
    name: Seq<char>,
    start: int,
    end: int,
) -> bool {
    forall|i: int|
        start <= i < end ==> (declared_field(#[trigger] all[i]) matches Some(field) ==> field.0
            != name)
}

/// Inside a block, the class that is being read is the block's, and its fields
/// of one name are those of the lines read so far.
proof fn lemma_before_the_field(
    all: Seq<Seq<char>>,
    class: Seq<char>,
    name: Seq<char>,
    opening: int,
    k: int,
)
    requires
        block_of(all, class, opening, k),
        undeclared_between(all, name, opening + 1, k),
    ensures
        after_lines(all.take(k)).current matches Some((reading, c)) && reading == class && forall|
            i: int,
        |
            0 <= i < c.fields.len() ==> (#[trigger] c.fields[i]).0 != name,
    decreases k - opening,
{
    assert(all.take(k).drop_last() =~= all.take(k - 1));
    assert(all.take(k).last() == all[k - 1]);
    if opening + 1 < k {
        lemma_before_the_field(all, class, name, opening, k - 1);
    }
}

/// Once its line has been read, a field is the first of its name.
proof fn lemma_after_the_field(
    all: Seq<Seq<char>>,
    class: Seq<char>,
    name: Seq<char>,
    field: FieldView,
    opening: int,
    at: int,
    k: int,
)
    requires
        opening < at < k,
        block_of(all, class, opening, k),
        undeclared_between(all, name, opening + 1, at),
        declared_field(all[at]) == Some((name, field)),
    ensures
        after_lines(all.take(k)).current matches Some((reading, c)) && reading == class && exists|
            p: int,
        |
            #![trigger c.fields[p]]
            0 <= p < c.fields.len() && c.fields[p] == (name, field) && (forall|i: int|
                0 <= i < p ==> (#[trigger] c.fields[i]).0 != name) && (undeclared_between(
                all,
                name,
                at + 1,
                k,
            ) ==> forall|i: int| p < i < c.fields.len() ==> (#[trigger] c.fields[i]).0 != name),
    decreases k - at,
{
    assert(all.take(k).drop_last() =~= all.take(k - 1));
    assert(all.take(k).last() == all[k - 1]);
    if at + 1 < k {
        lemma_after_the_field(all, class, name, field, opening, at, k - 1);
        let c = (after_lines(all.take(k - 1)).current->0).1;
        let d = (after_lines(all.take(k)).current->0).1;
        let p = choose|p: int|
            #![trigger c.fields[p]]
            0 <= p < c.fields.len() && c.fields[p] == (name, field) && (forall|i: int|
                0 <= i < p ==> (#[trigger] c.fields[i]).0 != name) && (undeclared_between(
                all,
                name,
                at + 1,
                k - 1,
            ) ==> forall|i: int| p < i < c.fields.len() ==> (#[trigger] c.fields[i]).0 != name);
        assert(d.fields[p] == (name, field));
        assert forall|i: int| 0 <= i < p implies (#[trigger] d.fields[i]).0 != name by {
            assert(d.fields[i] == c.fields[i]);
        }
        if undeclared_between(all, name, at + 1, k) {
            assert(undeclared_between(all, name, at + 1, k - 1));
            assert forall|i: int| p < i < d.fields.len() implies (#[trigger] d.fields[i]).0
                != name by {
                if i < c.fields.len() {
                    assert(d.fields[i] == c.fields[i]);
                } else {
                    assert(declared_field(all[k - 1]) == Some(d.fields[i]));
                }
            }
        }
    } else {
        lemma_before_the_field(all, class, name, opening, at);
        let c = (after_lines(all.take(at)).current->0).1;
        let d = (after_lines(all.take(k)).current->0).1;
        let p = c.fields.len() as int;
        assert(d.fields[p] == (name, field));
        assert forall|i: int| 0 <= i < p implies (#[trigger] d.fields[i]).0 != name by {
            assert(d.fields[i] == c.fields[i]);
        }
    }
}

/// A class that is not declared again stays as its block left it.
proof fn lemma_class_stays(
    all: Seq<Seq<char>>,
    class: Seq<char>,
    opening: int,
    end: int,
    k: int,
)
    requires
        block_of(all, class, opening, end),
        end <= k <= all.len(),
        end < all.len() ==> declared_type(all[end]) is Some,
        forall|i: int| end <= i < all.len() ==> declared_type(#[trigger] all[i]) != Some(class),
        after_lines(all.take(end)).current matches Some((reading, _)) && reading == class,
    ensures
        closed_classes(after_lines(all.take(k))).contains_key(class),
        closed_classes(after_lines(all.take(k)))[class] == (after_lines(
            all.take(end),
        ).current->0).1,
        end < k ==> (after_lines(all.take(k)).current matches Some((reading, _)) && reading
            != class),
    decreases k - end,
{
    if end < k {
        assert(all.take(k).drop_last() =~= all.take(k - 1));
        assert(all.take(k).last() == all[k - 1]);
        lemma_class_stays(all, class, opening, end, k - 1);
    }
}

/// A field is found in its class however many lines that declare neither a type
/// nor that field stand between the two, and whatever stands before the class
/// or after its block, as long as the class is not declared again. An instance
/// field is found as a field and a static one as a static field, whatever the
/// rest of the block declares; where nothing else in the block has the name, a
/// static field is found as a field too.
pub proof fn a_field_is_found_however_far_down(
    text: Seq<char>,
    class: Seq<char>,
    name: Seq<char>,
    field: FieldView,
    opening: int,
    at: int,
    end: int,
)
    requires
        opening < at < end,
        block_of(lines(text), class, opening, end),
        end < lines(text).len() ==> declared_type(lines(text)[end]) is Some,
        forall|i: int|
            end <= i < lines(text).len() ==> declared_type(#[trigger] lines(text)[i]) != Some(
                class,
            ),
        undeclared_between(lines(text), name, opening + 1, at),
        declared_field(lines(text)[at]) == Some((name, field)),
    ensures
        classes_of(text).contains_key(class),
        !field.is_static ==> classes_of(text)[class].field(name) == Some(field),
        field.is_static ==> classes_of(text)[class].static_field(name) == Some(field),
        undeclared_between(lines(text), name, at + 1, end) ==> classes_of(text)[class].field(name)
            == Some(field),
        !field.is_static || undeclared_between(lines(text), name, at + 1, end) ==> field_of(
            classes_of(text),
            class,
            seq![name],
        ) == Some((field.offset, class + "."@ + name)),
        field.is_static ==> static_field_of(classes_of(text), class, seq![name]) == Some(
            (field.offset, class + "."@ + name + " (static)"@),
        ),
{
    let all = lines(text);
    lemma_after_the_field(all, class, name, field, opening, at, end);
    lemma_class_stays(all, class, opening, end, all.len() as int);
    assert(all.take(all.len() as int) =~= all);
    let c = (after_lines(all.take(end)).current->0).1;
    let p = choose|p: int|
        #![trigger c.fields[p]]
        0 <= p < c.fields.len() && c.fields[p] == (name, field) && (forall|i: int|
            0 <= i < p ==> (#[trigger] c.fields[i]).0 != name) && (undeclared_between(
            all,
            name,
            at + 1,
            end,
        ) ==> forall|i: int| p < i < c.fields.len() ==> (#[trigger] c.fields[i]).0 != name);
    lemma_field_from_is(c.fields, name, None, 0, p);
    lemma_field_from_is(c.fields, name, Some(field.is_static), 0, p);
    if undeclared_between(all, name, at + 1, end) && field.is_static {
        lemma_field_from(c.fields, name, Some(false), 0);
        if let Some(other) = field_from(c.fields, name, Some(false), 0) {
            let i = choose|i: int| 0 <= i < c.fields.len() && c.fields[i] == (name, other);
            assert(i == p);
        }
    }
    assert(seq![name][0] == name);
}

/// A word of a declaration: no white space and none of the marks that end one.
pub open spec fn plain_word(s: Seq<char>) -> bool {
    &&& s.len() > 0
    &&& forall|i: int|
        0 <= i < s.len() ==> !is_white(#[trigger] s[i]) && s[i] != '/' && s[i] != ';' && s[i] != '='
}

/// A type's name as it stands in its declaration. It may hold spaces, as
/// `Dictionary<TKey, TValue>` does.
pub open spec fn plain_type(s: Seq<char>) -> bool {
    &&& s.len() > 0
    &&& !is_white(s[0])
    &&& !is_white(s.last())
    &&& s.last() != '{'
    &&& !contains(s, " : "@)
    &&& forall|i: int| 0 <= i < s.len() ==> #[trigger] s[i] != '/'
}

/// The line that declares a public class without a base type.
pub open spec fn class_line(class: Seq<char>) -> Seq<char> {
    "public class "@ + class
}

/// The line that declares a public field, with its offset as it is written
/// behind `0x`.
pub open spec fn field_line(kind: Seq<char>, name: Seq<char>, offset: Seq<char>) -> Seq<char> {
    "\tpublic "@ + kind + " "@ + name + "; // 0x"@ + offset
}

/// `public class C` declares `C`.
pub proof fn a_class_line_declares_its_class(class: Seq<char>)
    requires
        plain_type(class),
    ensures
        declared_type(class_line(class)) == Some(class),
{
    reveal_strlit("public class ");
    reveal_strlit("//");
    reveal_strlit("public ");
    reveal_strlit("static ");
    reveal_strlit("abstract ");
    reveal_strlit("sealed ");
    reveal_strlit("readonly ");
    reveal_strlit("unsafe ");
    reveal_strlit("class ");
    let line = class_line(class);
    assert forall|i: int| 0 <= i < line.len() implies #[trigger] line[i] != '/' by {
        if i >= 13 {
            assert(line[i] == class[i - 13]);
        }
    }
    lemma_absent(line, "//"@);
    assert(line.last() == class.last());
    assert(trim_end(line) == line);
    assert(line.subrange(0, 7) =~= "public "@);
    let rest = line.skip(7);
    assert(after_access(line) == rest);
    assert(rest[0] == 'c' && rest[1] == 'l');
    assert(!occurs_at(rest, "static "@, 0)) by {
        assert("static "@[0] == 's');
        lemma_starts(rest, "static "@);
    }
    assert(!occurs_at(rest, "abstract "@, 0)) by {
        assert("abstract "@[0] == 'a');
        lemma_starts(rest, "abstract "@);
    }
    assert(!occurs_at(rest, "sealed "@, 0)) by {
        assert("sealed "@[0] == 's');
        lemma_starts(rest, "sealed "@);
    }
    assert(!occurs_at(rest, "readonly "@, 0)) by {
        assert("readonly "@[0] == 'r');
        lemma_starts(rest, "readonly "@);
    }
    assert(!occurs_at(rest, "unsafe "@, 0)) by {
        assert("unsafe "@[0] == 'u');
        lemma_starts(rest, "unsafe "@);
    }
    assert(after_type_modifier(rest) is None);
    assert(after_type_modifiers(rest) == rest);
    assert(rest.subrange(0, 6) =~= "class "@);
    assert(rest.skip(6) =~= class);
    lemma_nothing_to_trim(class);
}

/// A text that starts with a part has its first character.
proof fn lemma_starts(s: Seq<char>, part: Seq<char>)
    requires
        part.len() > 0,
    ensures
        occurs_at(s, part, 0) ==> s[0] == part[0],
{
    if occurs_at(s, part, 0) {
        assert(s.subrange(0, part.len() as int)[0] == s[0]);
    }
}

/// A field's type that is no modifier is not taken for one.
proof fn lemma_no_modifier(kind: Seq<char>, name: Seq<char>)
    requires
        plain_word(kind),
        kind != "static"@,
        kind != "readonly"@,
        kind != "const"@,
        kind != "volatile"@,
        kind != "unsafe"@,
    ensures
        after_field_modifiers(kind + " "@ + name, false) == (kind + " "@ + name, false),
{
    reveal_strlit(" ");
    reveal_strlit("static");
    reveal_strlit("static ");
    reveal_strlit("readonly");
    reveal_strlit("readonly ");
    reveal_strlit("const");
    reveal_strlit("const ");
    reveal_strlit("volatile");
    reveal_strlit("volatile ");
    reveal_strlit("unsafe");
    reveal_strlit("unsafe ");
    lemma_no_word(kind, name, "static"@);
    assert("static"@ + " "@ =~= "static "@);
    lemma_no_word(kind, name, "readonly"@);
    assert("readonly"@ + " "@ =~= "readonly "@);
    lemma_no_word(kind, name, "const"@);
    assert("const"@ + " "@ =~= "const "@);
    lemma_no_word(kind, name, "volatile"@);
    assert("volatile"@ + " "@ =~= "volatile "@);
    lemma_no_word(kind, name, "unsafe"@);
    assert("unsafe"@ + " "@ =~= "unsafe "@);
}

proof fn lemma_no_word(kind: Seq<char>, name: Seq<char>, word: Seq<char>)
    requires
        plain_word(kind),
        kind != word,
        forall|i: int| 0 <= i < word.len() ==> #[trigger] word[i] != ' ',
    ensures
        !occurs_at(kind + " "@ + name, word + " "@, 0),
{
    reveal_strlit(" ");
    lemma_first_word(kind, name, word);
    let part = word + " "@;
    if occurs_at(kind, part, 0) {
        let at = word.len() as int;
        assert(kind.subrange(0, at + 1)[at] == kind[at]);
        assert(part[at] == ' ');
    }
}

/// `public T F` names the instance field `F` of type `T`, and has no initialiser.
proof fn lemma_declaration(kind: Seq<char>, name: Seq<char>, n: i64)
    requires
        plain_word(kind),
        kind != "static"@,
        kind != "readonly"@,
        kind != "const"@,
        kind != "volatile"@,
        kind != "unsafe"@,
        plain_word(name),
    ensures
        before("public "@ + (kind + " "@ + name), " = "@) == "public "@ + (kind + " "@ + name),
        named_field("public "@ + (kind + " "@ + name), n) == Some(
            (name, FieldView { offset: n, is_static: false, field_type: kind }),
        ),
{
    reveal_strlit("public ");
    reveal_strlit(" ");
    reveal_strlit(" = ");
    let rest = kind + " "@ + name;
    let declaration = "public "@ + rest;
    assert forall|i: int| !occurs_at(declaration, " = "@, i) by {
        if occurs_at(declaration, " = "@, i) {
            assert(declaration.subrange(i, i + 3)[1] == declaration[i + 1]);
            let k = i + 1;
            if k >= 7 {
                assert(declaration[k] == rest[k - 7]);
                if k - 7 < kind.len() {
                    assert(rest[k - 7] == kind[k - 7]);
                } else if k - 7 > kind.len() {
                    assert(rest[k - 7] == name[k - 7 - kind.len() - 1]);
                }
            }
        }
    }
    assert(before(declaration, " = "@) == declaration);
    assert(declaration.subrange(0, 7) =~= "public "@);
    assert(declaration.skip(7) =~= rest);
    lemma_no_modifier(kind, name);
    let split = kind.len() as int;
    assert(rest.subrange(split, split + 1) =~= " "@);
    assert forall|i: int| i > split implies !occurs_at(rest, " "@, i) by {
        if occurs_at(rest, " "@, i) {
            assert(rest.subrange(i, i + 1)[0] == rest[i]);
            assert(rest[i] == name[i - split - 1]);
        }
    }
    lemma_rfind_is(rest, " "@, split);
    assert(rest.skip(split + 1) =~= name);
    assert(rest.take(split) =~= kind);
    assert(name.last() == name[name.len() - 1]);
    assert(kind.last() == kind[kind.len() - 1]);
    lemma_nothing_to_trim(name);
    lemma_nothing_to_trim(kind);
}

/// A part that starts with a character found nowhere later stands last where
/// that character does.
proof fn lemma_last_mark(s: Seq<char>, part: Seq<char>, more: Seq<char>)
    requires
        part.len() > 0,
        forall|i: int| 1 <= i < part.len() ==> #[trigger] part[i] != part[0],
        forall|i: int| 0 <= i < more.len() ==> #[trigger] more[i] != part[0],
    ensures
        rfind(s + part + more, part) == Some(s.len() as int),
{
    let all = s + part + more;
    let at = s.len() as int;
    assert(all.subrange(at, at + part.len()) =~= part);
    assert forall|i: int| i > at implies !occurs_at(all, part, i) by {
        if occurs_at(all, part, i) {
            assert(all.subrange(i, i + part.len())[0] == all[i]);
            if i < at + part.len() {
                assert(all[i] == part[i - at]);
            } else {
                assert(all[i] == more[i - at - part.len()]);
            }
        }
    }
    lemma_rfind_is(all, part, at);
}

/// The offset stands behind the last `; // `.
proof fn lemma_offset_comment(declaration: Seq<char>, offset: Seq<char>)
    requires
        plain_word(offset),
    ensures
        ({
            let body = declaration + "; // "@ + ("0x"@ + offset);
            let at = declaration.len() as int;
            &&& rfind(body, "; // "@) == Some(at)
            &&& body.take(at) == declaration
            &&& body.skip(at + 5) == "0x"@ + offset
        }),
{
    reveal_strlit("; // ");
    reveal_strlit("0x");
    let written = "0x"@ + offset;
    let body = declaration + "; // "@ + written;
    let at = declaration.len() as int;
    assert forall|i: int| 0 <= i < written.len() implies #[trigger] written[i] != ';' by {
        if i >= 2 {
            assert(written[i] == offset[i - 2]);
        }
    }
    assert("; // "@[1] != ';' && "; // "@[2] != ';' && "; // "@[3] != ';' && "; // "@[4] != ';');
    lemma_last_mark(declaration, "; // "@, written);
    assert(body.take(at) =~= declaration);
    assert(body.skip(at + 5) =~= written);
}

proof fn lemma_written_offset(offset: Seq<char>)
    requires
        plain_word(offset),
    ensures
        strip_prefix(trim("0x"@ + offset), "0x"@) == Some(offset),
{
    reveal_strlit("0x");
    let written = "0x"@ + offset;
    assert(written[0] == '0');
    assert(offset.last() == offset[offset.len() - 1]);
    assert(written.last() == offset.last());
    lemma_nothing_to_trim(written);
    assert(written.subrange(0, 2) =~= "0x"@);
    assert(written.skip(2) =~= offset);
}

/// `\tpublic T F; // 0xNN` declares the instance field `F` of type `T` there.
pub proof fn a_field_line_declares_its_field(
    kind: Seq<char>,
    name: Seq<char>,
    offset: Seq<char>,
    n: i64,
)
    requires
        plain_word(kind),
        kind != "static"@,
        kind != "readonly"@,
        kind != "const"@,
        kind != "volatile"@,
        kind != "unsafe"@,
        plain_word(name),
        plain_word(offset),
        parsed(offset, 16, i64::MIN as int, i64::MAX as int) == Some(n as int),
    ensures
        declared_type(field_line(kind, name, offset)) is None,
        declared_field(field_line(kind, name, offset)) == Some(
            (name, FieldView { offset: n, is_static: false, field_type: kind }),
        ),
{
    reveal_strlit("\tpublic ");
    reveal_strlit("public ");
    reveal_strlit(" ");
    reveal_strlit("; // 0x");
    reveal_strlit("; // ");
    reveal_strlit("0x");
    reveal_strlit("//");
    let line = field_line(kind, name, offset);
    let declaration = "public "@ + (kind + " "@ + name);
    let at = declaration.len() as int;
    let body = declaration + "; // "@ + ("0x"@ + offset);
    assert(line.skip(1) =~= body);
    assert(body[0] == 'p');
    lemma_starts(body, "//"@);
    lemma_offset_comment(declaration, offset);
    lemma_written_offset(offset);
    lemma_declaration(kind, name, n);
}

/// There is no line window: `public class C`, then any number of lines that
/// declare neither a type nor a field `F`, then `\tpublic T F; // 0xNN` at the
/// end of the text, and `F` is found in `C` at that offset.
pub proof fn a_field_at_the_end_of_the_text_is_found(
    text: Seq<char>,
    opening: int,
    class: Seq<char>,
    kind: Seq<char>,
    name: Seq<char>,
    offset: Seq<char>,
    n: i64,
)
    requires
        0 <= opening < lines(text).len() - 1,
        lines(text)[opening] == class_line(class),
        lines(text).last() == field_line(kind, name, offset),
        forall|i: int|
            opening < i < lines(text).len() - 1 ==> declared_type(#[trigger] lines(text)[i])
                is None,
        undeclared_between(lines(text), name, opening + 1, lines(text).len() - 1),
        plain_type(class),
        plain_word(kind),
        kind != "static"@,
        kind != "readonly"@,
        kind != "const"@,
        kind != "volatile"@,
        kind != "unsafe"@,
        plain_word(name),
        plain_word(offset),
        parsed(offset, 16, i64::MIN as int, i64::MAX as int) == Some(n as int),
    ensures
        field_of(classes_of(text), class, seq![name]) == Some((n, class + "."@ + name)),
{
    let all = lines(text);
    let at = all.len() - 1;
    a_class_line_declares_its_class(class);
    a_field_line_declares_its_field(kind, name, offset, n);
    assert(all[at] == all.last());
    let field = FieldView { offset: n, is_static: false, field_type: kind };
    a_field_is_found_however_far_down(text, class, name, field, opening, at, at + 1);
}

/// The fields that the lines from `from` to before `to` declare, in order.
pub open spec fn fields_between(all: Seq<Seq<char>>, from: int, to: int) -> Seq<
    (Seq<char>, FieldView),
>
    decreases to - from,
{
    if to <= from {
        Seq::empty()
    } else {
        match declared_field(all[to - 1]) {
            Some(field) => fields_between(all, from, to - 1).push(field),
            None => fields_between(all, from, to - 1),
        }
    }
}

/// The methods that the lines from `from` to before `to` declare, each with the
/// address that the line right before it reports, in order.
pub open spec fn methods_between(all: Seq<Seq<char>>, from: int, to: int) -> Seq<(Seq<char>, u64)>
    decreases to - from,
{
    if to <= from + 1 {
        Seq::empty()
    } else {
        match (reported_rva(all[to - 2]), declared_method(all[to - 1])) {
            (Some(rva), Some(name)) => methods_between(all, from, to - 1).push((name, rva)),
            _ => methods_between(all, from, to - 1),
        }
    }
}

proof fn lemma_block(all: Seq<Seq<char>>, class: Seq<char>, opening: int, k: int)
    requires
        block_of(all, class, opening, k),
    ensures
        after_lines(all.take(k)).current == Some(
            (
                class,
                ClassView {
                    fields: fields_between(all, opening + 1, k),
                    methods: methods_between(all, opening + 1, k),
                    line_span: k - opening - 1,
                },
            ),
        ),
        after_lines(all.take(k)).rva == (if k == opening + 1 {
            None
        } else {
            reported_rva(all[k - 1])
        }),
    decreases k - opening,
{
    assert(all.take(k).drop_last() =~= all.take(k - 1));
    assert(all.take(k).last() == all[k - 1]);
    if opening + 1 < k {
        lemma_block(all, class, opening, k - 1);
    }
}

/// A class has exactly the fields that the lines of its block declare, in order,
/// and the methods whose address the line right before each reports; it spans
/// the lines of its block. A later block of the same name would replace it.
pub proof fn a_class_is_what_its_block_declares(
    text: Seq<char>,
    class: Seq<char>,
    opening: int,
    end: int,
)
    requires
        block_of(lines(text), class, opening, end),
        end < lines(text).len() ==> declared_type(lines(text)[end]) is Some,
        forall|i: int|
            end <= i < lines(text).len() ==> declared_type(#[trigger] lines(text)[i]) != Some(
                class,
            ),
    ensures
        classes_of(text).contains_key(class),
        classes_of(text)[class].fields == fields_between(lines(text), opening + 1, end),
        classes_of(text)[class].methods == methods_between(lines(text), opening + 1, end),
        classes_of(text)[class].line_span == end - opening - 1,
{
    let all = lines(text);
    lemma_block(all, class, opening, end);
    lemma_class_stays(all, class, opening, end, all.len() as int);
    assert(all.take(all.len() as int) =~= all);
}

proof fn lemma_no_class(all: Seq<Seq<char>>, class: Seq<char>, k: int)
    requires
        0 <= k <= all.len(),
    ensures
        closed_classes(after_lines(all.take(k))).contains_key(class) ==> exists|i: int|
            0 <= i < k && declared_type(#[trigger] all[i]) == Some(class),
    decreases k,
{
    if k > 0 {
        assert(all.take(k).drop_last() =~= all.take(k - 1));
        assert(all.take(k).last() == all[k - 1]);
        lemma_no_class(all, class, k - 1);
        if closed_classes(after_lines(all.take(k))).contains_key(class) && declared_type(all[k - 1])
            != Some(class) {
            assert(closed_classes(after_lines(all.take(k - 1))).contains_key(class));
            let i = choose|i: int| 0 <= i < k - 1 && declared_type(#[trigger] all[i]) == Some(class);
            assert(declared_type(all[i]) == Some(class));
        }
    } else {
        assert(all.take(0) =~= Seq::empty());
    }
}

/// A dump has a class only if a line declares it.
pub proof fn only_declared_classes_are_there(text: Seq<char>, class: Seq<char>)
    ensures
        classes_of(text).contains_key(class) ==> exists|i: int|
            0 <= i < lines(text).len() && declared_type(#[trigger] lines(text)[i]) == Some(class),
{
    let all = lines(text);
    lemma_no_class(all, class, all.len() as int);
    assert(all.take(all.len() as int) =~= all);
}

proof fn lemma_candidate_from(
    class: ClassView,
    name: Seq<char>,
    candidates: Seq<Seq<char>>,
    k: int,
    at: int,
)
    requires
        0 <= k <= at < candidates.len(),
        forall|j: int| k <= j < at ==> class.field(#[trigger] candidates[j]) is None,
        class.field(candidates[at]) is Some,
    ensures
        candidate_from(class, name, candidates, k) == Some(
            (class.field(candidates[at])->0.offset, name + "."@ + candidates[at]),
        ),
    decreases at - k,
{
    if k < at {
        assert(class.field(candidates[k]) is None);
        lemma_candidate_from(class, name, candidates, k + 1, at);
    }
}

proof fn lemma_static_candidate_from(
    class: ClassView,
    name: Seq<char>,
    candidates: Seq<Seq<char>>,
    k: int,
    at: int,
)
    requires
        0 <= k <= at < candidates.len(),
        forall|j: int| k <= j < at ==> class.static_field(#[trigger] candidates[j]) is None,
        class.static_field(candidates[at]) is Some,
    ensures
        static_candidate_from(class, name, candidates, k) == Some(
            (
                class.static_field(candidates[at])->0.offset,
                name + "."@ + candidates[at] + " (static)"@,
            ),
        ),
    decreases at - k,
{
    if k < at {
        assert(class.static_field(candidates[k]) is None);
        lemma_static_candidate_from(class, name, candidates, k + 1, at);
    }
}

proof fn lemma_no_candidate(
    class: ClassView,
    name: Seq<char>,
    candidates: Seq<Seq<char>>,
    k: int,
)
    requires
        0 <= k,
    ensures
        (forall|j: int| k <= j < candidates.len() ==> class.field(#[trigger] candidates[j]) is None)
            ==> candidate_from(class, name, candidates, k) is None,
        (forall|j: int|
            k <= j < candidates.len() ==> class.static_field(#[trigger] candidates[j]) is None)
            ==> static_candidate_from(class, name, candidates, k) is None,
    decreases candidates.len() - k,
{
    if k < candidates.len() {
        lemma_no_candidate(class, name, candidates, k + 1);
    }
}

/// Of several names for a field the first that the class has is taken, and named
/// in full; where it has none of them, or the class is not there, nothing is.
pub proof fn the_first_candidate_found_is_taken(
    dump: Map<Seq<char>, ClassView>,
    class: Seq<char>,
    candidates: Seq<Seq<char>>,
    at: int,
)
    ensures
        dump.contains_key(class) && 0 <= at < candidates.len() && dump[class].field(candidates[at])
            is Some && (forall|j: int|
            0 <= j < at ==> dump[class].field(#[trigger] candidates[j]) is None) ==> field_of(
            dump,
            class,
            candidates,
        ) == Some(
            (dump[class].field(candidates[at])->0.offset, class + "."@ + candidates[at]),
        ),
        dump.contains_key(class) && 0 <= at < candidates.len() && dump[class].static_field(
            candidates[at],
        ) is Some && (forall|j: int|
            0 <= j < at ==> dump[class].static_field(#[trigger] candidates[j]) is None)
            ==> static_field_of(dump, class, candidates) == Some(
            (
                dump[class].static_field(candidates[at])->0.offset,
                class + "."@ + candidates[at] + " (static)"@,
            ),
        ),
        !dump.contains_key(class) || (forall|j: int|
            0 <= j < candidates.len() ==> dump[class].field(#[trigger] candidates[j]) is None)
            ==> field_of(dump, class, candidates) is None,
        !dump.contains_key(class) || (forall|j: int|
            0 <= j < candidates.len() ==> dump[class].static_field(#[trigger] candidates[j]) is None)
            ==> static_field_of(dump, class, candidates) is None,
{
    if dump.contains_key(class) {
        let c = dump[class];
        lemma_no_candidate(c, class, candidates, 0);
        if 0 <= at < candidates.len() {
            if c.field(candidates[at]) is Some && (forall|j: int|
                0 <= j < at ==> c.field(#[trigger] candidates[j]) is None) {
                lemma_candidate_from(c, class, candidates, 0, at);
            }
            if c.static_field(candidates[at]) is Some && (forall|j: int|
                0 <= j < at ==> c.static_field(#[trigger] candidates[j]) is None) {
                lemma_static_candidate_from(c, class, candidates, 0, at);
            }
        }
    }
}

proof fn lemma_method_from(methods: Seq<(Seq<char>, u64)>, name: Seq<char>, k: int)
    requires
        0 <= k,
    ensures
        match method_from(methods, name, k) {
            Some(rva) => exists|i: int|
                k <= i < methods.len() && #[trigger] methods[i] == (name, rva) && forall|j: int|
                    k <= j < i ==> (#[trigger] methods[j]).0 != name,
            None => forall|j: int| k <= j < methods.len() ==> (#[trigger] methods[j]).0 != name,
        },
    decreases methods.len() - k,
{
    if k < methods.len() {
        if methods[k].0 == name {
            assert(methods[k] == (name, methods[k].1));
        } else {
            lemma_method_from(methods, name, k + 1);
            if let Some(rva) = method_from(methods, name, k + 1) {
                let i = choose|i: int|
                    k + 1 <= i < methods.len() && #[trigger] methods[i] == (name, rva) && forall|
                        j: int,
                    |
                        k + 1 <= j < i ==> (#[trigger] methods[j]).0 != name;
                assert(methods[i] == (name, rva));
            }
        }
    }
}

/// Of several methods of one name the first is found.
pub proof fn the_first_method_is_found(
    dump: Map<Seq<char>, ClassView>,
    class: Seq<char>,
    name: Seq<char>,
)
    ensures
        match method_of(dump, class, name) {
            Some(rva) => dump.contains_key(class) && exists|i: int|
                0 <= i < dump[class].methods.len() && #[trigger] dump[class].methods[i] == (
                    name,
                    rva,
                ) && forall|j: int| 0 <= j < i ==> (#[trigger] dump[class].methods[j]).0 != name,
            None => !dump.contains_key(class) || forall|j: int|
                0 <= j < dump[class].methods.len() ==> (#[trigger] dump[class].methods[j]).0 != name,
        },
{
    if dump.contains_key(class) {
        lemma_method_from(dump[class].methods, name, 0);
    }
}

} // verus!
