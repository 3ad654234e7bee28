//! How `dump.cs` spells types, fields and methods, and that each spelling is
//! read as what it declares.

use vstd::prelude::*;

use crate::dumpcs::{
    after_access, after_field_modifiers, after_keyword, after_type_modifier, after_type_modifiers,
    declared_field, declared_method, declared_type, lemma_modifiers_shorten, named_field,
    reported_rva, FieldView,
};
use crate::il2cpph::lemma_before_past;
use crate::numbers::parsed;
use crate::text::{
    before, contains, is_white, last_at, lemma_find_is, lemma_nothing_to_trim, lemma_rfind_is,
    occurs_at, rfind, strip_prefix, trim, trim_end, trim_end_char, trim_start,
};

verus! {

/// An access modifier, or none.
pub open spec fn is_access(s: Seq<char>) -> bool {
    ||| s == "public "@
    ||| s == "private "@
    ||| s == "internal "@
    ||| s == "protected internal "@
    ||| s == "protected "@
}

/// A modifier of a type.
pub open spec fn is_type_modifier(s: Seq<char>) -> bool {
    ||| s == "static "@
    ||| s == "abstract "@
    ||| s == "sealed "@
    ||| s == "readonly "@
    ||| s == "unsafe "@
}

/// A modifier of a field.
pub open spec fn is_field_modifier(s: Seq<char>) -> bool {
    ||| s == "static "@
    ||| s == "readonly "@
    ||| s == "const "@
    ||| s == "volatile "@
    ||| s == "unsafe "@
}

/// A keyword that declares a type.
pub open spec fn is_keyword(s: Seq<char>) -> bool {
    ||| s == "class "@
    ||| s == "struct "@
    ||| s == "interface "@
    ||| s == "enum "@
}

/// Words one after the other.
pub open spec fn spelled(words: Seq<Seq<char>>) -> Seq<char>
    decreases words.len(),
{
    if words.len() == 0 {
        Seq::empty()
    } else {
        words[0] + spelled(words.skip(1))
    }
}

/// A text that starts with a part has each of its characters.
proof fn lemma_start_char(s: Seq<char>, part: Seq<char>, i: int)
    requires
        0 <= i < part.len(),
    ensures
        occurs_at(s, part, 0) ==> s.len() >= part.len() && s[i] == part[i],
{
    if occurs_at(s, part, 0) {
        assert(s.subrange(0, part.len() as int)[i] == s[i]);
    }
}

/// A part comes off the text that it starts.
proof fn lemma_comes_off(part: Seq<char>, rest: Seq<char>)
    ensures
        strip_prefix(part + rest, part) == Some(rest),
        occurs_at(part + rest, part, 0),
{
    assert((part + rest).subrange(0, part.len() as int) =~= part);
    assert((part + rest).skip(part.len() as int) =~= rest);
}

/// What follows an access modifier does not look like the end of one.
spec fn follows_access(rest: Seq<char>) -> bool {
    !occurs_at(rest, "internal "@, 0)
}

proof fn lemma_access(access: Seq<char>, rest: Seq<char>)
    requires
        is_access(access),
        follows_access(rest),
    ensures
        after_access(access + rest) == rest,
        (access + rest).len() > 0,
        (access + rest)[0] != '\t',
        (access + rest)[0] != ' ',
{
    reveal_strlit("public ");
    reveal_strlit("private ");
    reveal_strlit("internal ");
    reveal_strlit("protected internal ");
    reveal_strlit("protected ");
    let s = access + rest;
    lemma_comes_off(access, rest);
    assert(s[0] == access[0] && s[1] == access[1] && s[2] == access[2]);
    lemma_start_char(s, "public "@, 1);
    lemma_start_char(s, "private "@, 2);
    lemma_start_char(s, "internal "@, 0);
    if access == "protected "@ {
        let both = "protected internal "@;
        if occurs_at(s, both, 0) {
            assert(rest.subrange(0, 9) =~= "internal "@) by {
                assert forall|i: int| 0 <= i < 9 implies rest[i] == "internal "@[i] by {
                    lemma_start_char(s, both, i + 10);
                    assert(s[i + 10] == rest[i]);
                    assert(both[i + 10] == "internal "@[i]);
                }
            }
        }
    }
}

proof fn lemma_no_access(rest: Seq<char>)
    requires
        rest.len() > 0,
        rest[0] != 'p',
        follows_access(rest),
    ensures
        after_access(rest) == rest,
{
    reveal_strlit("public ");
    reveal_strlit("private ");
    reveal_strlit("internal ");
    reveal_strlit("protected internal ");
    reveal_strlit("protected ");
    lemma_start_char(rest, "public "@, 0);
    lemma_start_char(rest, "private "@, 0);
    lemma_start_char(rest, "protected internal "@, 0);
    lemma_start_char(rest, "protected "@, 0);
}

proof fn lemma_type_modifier(word: Seq<char>, rest: Seq<char>)
    requires
        is_type_modifier(word),
    ensures
        after_type_modifier(word + rest) == Some(rest),
        word.len() > 0,
{
    reveal_strlit("static ");
    reveal_strlit("abstract ");
    reveal_strlit("sealed ");
    reveal_strlit("readonly ");
    reveal_strlit("unsafe ");
    let s = word + rest;
    lemma_comes_off(word, rest);
    assert(s[0] == word[0] && s[1] == word[1]);
    lemma_start_char(s, "static "@, 0);
    lemma_start_char(s, "static "@, 1);
    lemma_start_char(s, "abstract "@, 0);
    lemma_start_char(s, "sealed "@, 0);
    lemma_start_char(s, "sealed "@, 1);
    lemma_start_char(s, "readonly "@, 0);
    lemma_start_char(s, "unsafe "@, 0);
}

proof fn lemma_keyword(keyword: Seq<char>, rest: Seq<char>)
    requires
        is_keyword(keyword),
    ensures
        after_keyword(keyword + rest) == Some(rest),
        after_type_modifier(keyword + rest) is None,
        keyword.len() > 0,
        follows_access(keyword + rest),
        (keyword + rest)[0] != 'p',
        (keyword + rest)[0] != '\t',
        (keyword + rest)[0] != ' ',
{
    reveal_strlit("class ");
    reveal_strlit("struct ");
    reveal_strlit("interface ");
    reveal_strlit("enum ");
    reveal_strlit("static ");
    reveal_strlit("abstract ");
    reveal_strlit("sealed ");
    reveal_strlit("readonly ");
    reveal_strlit("unsafe ");
    reveal_strlit("internal ");
    let s = keyword + rest;
    lemma_comes_off(keyword, rest);
    assert(s[0] == keyword[0] && s[1] == keyword[1] && s[2] == keyword[2]);
    lemma_start_char(s, "class "@, 0);
    lemma_start_char(s, "struct "@, 0);
    lemma_start_char(s, "interface "@, 0);
    lemma_start_char(s, "enum "@, 0);
    lemma_start_char(s, "static "@, 0);
    lemma_start_char(s, "static "@, 2);
    lemma_start_char(s, "abstract "@, 0);
    lemma_start_char(s, "sealed "@, 0);
    lemma_start_char(s, "sealed "@, 1);
    lemma_start_char(s, "readonly "@, 0);
    lemma_start_char(s, "unsafe "@, 0);
    lemma_start_char(s, "internal "@, 0);
    lemma_start_char(s, "internal "@, 5);
    if keyword == "interface "@ {
        assert(s[5] == keyword[5]);
    }
}

proof fn lemma_type_modifiers(words: Seq<Seq<char>>, keyword: Seq<char>, rest: Seq<char>)
    requires
        forall|i: int| 0 <= i < words.len() ==> is_type_modifier(#[trigger] words[i]),
        is_keyword(keyword),
    ensures
        after_type_modifiers(spelled(words) + (keyword + rest)) == keyword + rest,
        follows_access(spelled(words) + (keyword + rest)),
        (spelled(words) + (keyword + rest)).len() > 0,
        (spelled(words) + (keyword + rest))[0] != 'p',
        (spelled(words) + (keyword + rest))[0] != '\t',
        (spelled(words) + (keyword + rest))[0] != ' ',
    decreases words.len(),
{
    let s = spelled(words) + (keyword + rest);
    lemma_keyword(keyword, rest);
    lemma_modifiers_shorten(s);
    if words.len() > 0 {
        let others = words.skip(1);
        assert forall|i: int| 0 <= i < others.len() implies is_type_modifier(
            #[trigger] others[i],
        ) by {
            assert(others[i] == words[i + 1]);
        }
        lemma_type_modifiers(others, keyword, rest);
        let after = spelled(others) + (keyword + rest);
        assert(is_type_modifier(words[0]));
        assert(s =~= words[0] + after);
        lemma_type_modifier(words[0], after);
        reveal_strlit("static ");
        reveal_strlit("abstract ");
        reveal_strlit("sealed ");
        reveal_strlit("readonly ");
        reveal_strlit("unsafe ");
        reveal_strlit("internal ");
        assert(s[0] == words[0][0]);
        lemma_start_char(s, "internal "@, 0);
    } else {
        assert(s =~= keyword + rest);
    }
}

/// A type's name. It may hold spaces, as `Dictionary<TKey, TValue>` does.
pub open spec fn is_type_name(s: Seq<char>) -> bool {
    &&& s.len() > 0
    &&& !is_white(s[0])
    &&& !is_white(s.last())
    &&& s.last() != '{'
    &&& forall|i: int| 0 <= i < s.len() ==> #[trigger] s[i] != '/' && s[i] != ':'
}

/// What may stand behind a type's name: nothing, an opening brace, or a colon and
/// its base types.
pub open spec fn is_tail(s: Seq<char>) -> bool {
    ||| s.len() == 0
    ||| s == " {"@
    ||| {
        &&& s.len() > 3
        &&& s.take(3) == " : "@
        &&& !is_white(s.last())
        &&& forall|i: int| 0 <= i < s.len() ==> #[trigger] s[i] != '/'
    }
}

/// White space, then a comment where there is one.
pub open spec fn is_comment(s: Seq<char>) -> bool {
    forall|i: int| 0 <= i < before(s, "//"@).len() ==> is_white(#[trigger] before(s, "//"@)[i])
}

proof fn lemma_trim_end_white(s: Seq<char>, white: Seq<char>)
    requires
        s.len() > 0,
        !is_white(s.last()),
        forall|i: int| 0 <= i < white.len() ==> is_white(#[trigger] white[i]),
    ensures
        trim_end(s + white) == s,
    decreases white.len(),
{
    let all = s + white;
    if white.len() > 0 {
        assert(all.last() == white[white.len() - 1]);
        assert(all.drop_last() =~= s + white.drop_last());
        lemma_trim_end_white(s, white.drop_last());
    } else {
        assert(all =~= s);
    }
}

/// A text without a colon has no ` : `.
proof fn lemma_no_colon(s: Seq<char>)
    requires
        forall|i: int| 0 <= i < s.len() ==> #[trigger] s[i] != ':',
    ensures
        before(s, " : "@) == s,
{
    reveal_strlit(" : ");
    assert forall|at: int| !occurs_at(s, " : "@, at) by {
        if occurs_at(s, " : "@, at) {
            assert(s.subrange(at, at + 3)[1] == s[at + 1]);
        }
    }
}

proof fn lemma_bare_name(name: Seq<char>)
    requires
        is_type_name(name),
    ensures
        trim(trim_end_char(trim(name), '{')) == name,
{
    lemma_nothing_to_trim(name);
    assert(trim_end_char(name, '{') == name);
}

proof fn lemma_opened_name(name: Seq<char>)
    requires
        is_type_name(name),
    ensures
        trim(trim_end_char(trim(name + " {"@), '{')) == name,
{
    reveal_strlit(" {");
    let all = name + " {"@;
    let spaced = name.push(' ');
    assert(all =~= spaced.push('{'));
    assert(spaced.push('{')[0] == name[0]);
    lemma_nothing_to_trim(spaced.push('{'));
    assert(spaced.push('{').drop_last() =~= spaced);
    assert(trim_end_char(spaced, '{') == spaced);
    assert(trim_end_char(spaced.push('{'), '{') == spaced);
    assert(spaced[0] == name[0]);
    assert(trim_start(spaced) == spaced);
    assert(spaced.drop_last() =~= name);
    assert(trim_end(name) == name);
}

proof fn lemma_based_name(name: Seq<char>, bases: Seq<char>)
    requires
        is_type_name(name),
    ensures
        before(name + (" : "@ + bases), " : "@) == name,
{
    reveal_strlit(" : ");
    let all = name + (" : "@ + bases);
    let n = name.len() as int;
    assert(all.subrange(n, n + 3) =~= " : "@);
    assert forall|at: int| at < n implies !occurs_at(all, " : "@, at) by {
        if occurs_at(all, " : "@, at) {
            assert(all.subrange(at, at + 3)[1] == all[at + 1]);
            if at + 1 < n {
                assert(all[at + 1] == name[at + 1]);
            } else {
                assert(all[at + 1] == ' ');
            }
        }
    }
    lemma_find_is(all, " : "@, n);
    assert(all.take(n) =~= name);
}

/// The name is what stands before the base types and the brace.
proof fn lemma_name(name: Seq<char>, tail: Seq<char>)
    requires
        is_type_name(name),
        is_tail(tail),
    ensures
        trim(trim_end_char(trim(before(name + tail, " : "@)), '{')) == name,
        !is_white((name + tail).last()),
        forall|i: int| 0 <= i < (name + tail).len() ==> #[trigger] (name + tail)[i] != '/',
{
    let all = name + tail;
    lemma_bare_name(name);
    if tail.len() == 0 {
        assert(all =~= name);
        lemma_no_colon(name);
    } else if tail == " {"@ {
        reveal_strlit(" {");
        assert forall|i: int| 0 <= i < all.len() implies #[trigger] all[i] != ':' by {
            if i < name.len() {
                assert(all[i] == name[i]);
            }
        }
        lemma_no_colon(all);
        lemma_opened_name(name);
        assert(all.last() == '{');
    } else {
        reveal_strlit(" : ");
        let bases = tail.skip(3);
        assert(tail =~= " : "@ + bases);
        lemma_based_name(name, bases);
        assert(all.last() == tail.last());
        assert forall|i: int| 0 <= i < all.len() implies #[trigger] all[i] != '/' by {
            if i < name.len() {
                assert(all[i] == name[i]);
            } else {
                assert(all[i] == tail[i - name.len()]);
            }
        }
    }
}

proof fn lemma_words_plain(words: Seq<Seq<char>>)
    requires
        forall|i: int| 0 <= i < words.len() ==> is_type_modifier(#[trigger] words[i]),
    ensures
        forall|i: int| 0 <= i < spelled(words).len() ==> #[trigger] spelled(words)[i] != '/',
    decreases words.len(),
{
    if words.len() > 0 {
        reveal_strlit("static ");
        reveal_strlit("abstract ");
        reveal_strlit("sealed ");
        reveal_strlit("readonly ");
        reveal_strlit("unsafe ");
        let others = words.skip(1);
        assert forall|i: int| 0 <= i < others.len() implies is_type_modifier(
            #[trigger] others[i],
        ) by {
            assert(others[i] == words[i + 1]);
        }
        lemma_words_plain(others);
        assert(is_type_modifier(words[0]));
        assert forall|i: int| 0 <= i < spelled(words).len() implies #[trigger] spelled(words)[i]
            != '/' by {
            if i >= words[0].len() {
                assert(spelled(words)[i] == spelled(others)[i - words[0].len()]);
            }
        }
    }
}

/// However a type is declared (with any access modifier or none, any run of
/// modifiers, any of the four keywords, with or without base types and a
/// comment), its line declares the type of that name.
#[verifier::rlimit(40)]
pub proof fn every_spelling_declares_its_type(
    access: Seq<char>,
    modifiers: Seq<Seq<char>>,
    keyword: Seq<char>,
    name: Seq<char>,
    tail: Seq<char>,
    comment: Seq<char>,
)
    requires
        access.len() == 0 || is_access(access),
        forall|i: int| 0 <= i < modifiers.len() ==> is_type_modifier(#[trigger] modifiers[i]),
        is_keyword(keyword),
        is_type_name(name),
        is_tail(tail),
        is_comment(comment),
    ensures
        declared_type(access + (spelled(modifiers) + (keyword + (name + tail))) + comment) == Some(
            name,
        ),
{
    let declaration = spelled(modifiers) + (keyword + (name + tail));
    let line = access + declaration;
    lemma_name(name, tail);
    lemma_type_modifiers(modifiers, keyword, name + tail);
    lemma_keyword(keyword, name + tail);
    if access.len() == 0 {
        assert(line =~= declaration);
        lemma_no_access(declaration);
    } else {
        lemma_access(access, declaration);
    }
    assert forall|i: int| 0 <= i < line.len() implies #[trigger] line[i] != '/' by {
        lemma_no_slash(access, modifiers, keyword, name + tail, i);
    }
    assert(line.last() == (name + tail).last());
    lemma_before_past(line, comment);
    lemma_trim_end_white(line, before(comment, "//"@));
    assert((line + comment)[0] == line[0]);
}

proof fn lemma_no_slash(
    access: Seq<char>,
    modifiers: Seq<Seq<char>>,
    keyword: Seq<char>,
    rest: Seq<char>,
    i: int,
)
    requires
        access.len() == 0 || is_access(access),
        forall|i: int| 0 <= i < modifiers.len() ==> is_type_modifier(#[trigger] modifiers[i]),
        is_keyword(keyword),
        forall|i: int| 0 <= i < rest.len() ==> #[trigger] rest[i] != '/',
        0 <= i < (access + (spelled(modifiers) + (keyword + rest))).len(),
    ensures
        (access + (spelled(modifiers) + (keyword + rest)))[i] != '/',
{
    reveal_strlit("public ");
    reveal_strlit("private ");
    reveal_strlit("internal ");
    reveal_strlit("protected internal ");
    reveal_strlit("protected ");
    reveal_strlit("class ");
    reveal_strlit("struct ");
    reveal_strlit("interface ");
    reveal_strlit("enum ");
    lemma_words_plain(modifiers);
    let a = access.len() as int;
    let b = a + spelled(modifiers).len();
    let c = b + keyword.len();
    let line = access + (spelled(modifiers) + (keyword + rest));
    if i < a {
        assert(line[i] == access[i]);
    } else if i < b {
        assert(line[i] == spelled(modifiers)[i - a]);
    } else if i < c {
        assert(line[i] == keyword[i - b]);
    } else {
        assert(line[i] == rest[i - c]);
    }
}

/// Whether a text starts with a modifier of a type, and what follows it.
proof fn lemma_modifier_taken(s: Seq<char>)
    ensures
        after_type_modifier(s) matches Some(rest) ==> exists|word: Seq<char>|
            is_type_modifier(word) && s == #[trigger] (word + rest),
{
    if let Some(rest) = after_type_modifier(s) {
        let n = s.len() - rest.len();
        let word = if occurs_at(s, "static "@, 0) {
            "static "@
        } else if occurs_at(s, "abstract "@, 0) {
            "abstract "@
        } else if occurs_at(s, "sealed "@, 0) {
            "sealed "@
        } else if occurs_at(s, "readonly "@, 0) {
            "readonly "@
        } else {
            "unsafe "@
        };
        assert(s =~= word + rest);
    }
}

proof fn lemma_modifiers_taken(s: Seq<char>) -> (words: Seq<Seq<char>>)
    ensures
        forall|i: int| 0 <= i < words.len() ==> is_type_modifier(#[trigger] words[i]),
        s == spelled(words) + after_type_modifiers(s),
    decreases s.len(),
{
    lemma_modifiers_shorten(s);
    match after_type_modifier(s) {
        Some(rest) => {
            lemma_modifier_taken(s);
            let word = choose|word: Seq<char>|
                is_type_modifier(word) && s == #[trigger] (word + rest);
            let others = lemma_modifiers_taken(rest);
            let words = seq![word] + others;
            assert(words.skip(1) =~= others);
            assert forall|i: int| 0 <= i < words.len() implies is_type_modifier(
                #[trigger] words[i],
            ) by {
                if i > 0 {
                    assert(words[i] == others[i - 1]);
                }
            }
            assert(s =~= spelled(words) + after_type_modifiers(s));
            words
        },
        None => {
            assert(s =~= spelled(Seq::empty()) + s);
            Seq::empty()
        },
    }
}

/// A line declares a type only if it starts at the first column and reads, up to
/// its comment, as an access modifier or none, modifiers, and one of the four
/// keywords.
pub proof fn only_a_keyword_declares_a_type(line: Seq<char>)
    ensures
        declared_type(line) is Some ==> line.len() > 0 && line[0] != '\t' && line[0] != ' ' && exists|
            access: Seq<char>,
            modifiers: Seq<Seq<char>>,
            keyword: Seq<char>,
            rest: Seq<char>,
        |
            #![trigger access + (spelled(modifiers) + (keyword + rest))]
            (access.len() == 0 || is_access(access)) && (forall|i: int|
                0 <= i < modifiers.len() ==> is_type_modifier(#[trigger] modifiers[i]))
                && is_keyword(keyword) && trim_end(before(line, "//"@)) == access + (spelled(
                modifiers,
            ) + (keyword + rest)),
{
    if declared_type(line) is Some {
        let body = trim_end(before(line, "//"@));
        let inner = after_access(body);
        let access = if occurs_at(body, "public "@, 0) {
            "public "@
        } else if occurs_at(body, "private "@, 0) {
            "private "@
        } else if occurs_at(body, "internal "@, 0) {
            "internal "@
        } else if occurs_at(body, "protected internal "@, 0) {
            "protected internal "@
        } else if occurs_at(body, "protected "@, 0) {
            "protected "@
        } else {
            Seq::empty()
        };
        assert(body =~= access + inner);
        let modifiers = lemma_modifiers_taken(inner);
        let declaration = after_type_modifiers(inner);
        let rest = after_keyword(declaration)->0;
        let keyword = if occurs_at(declaration, "class "@, 0) {
            "class "@
        } else if occurs_at(declaration, "struct "@, 0) {
            "struct "@
        } else if occurs_at(declaration, "interface "@, 0) {
            "interface "@
        } else {
            "enum "@
        };
        assert(declaration =~= keyword + rest);
        assert(body == access + (spelled(modifiers) + (keyword + rest)));
    }
}

/// A field's type, which may hold spaces, as `Dictionary<K, V>` does, but is no
/// modifier and does not start with one.
pub open spec fn is_field_type(s: Seq<char>) -> bool {
    &&& s.len() > 0
    &&& !is_white(s[0])
    &&& !is_white(s.last())
    &&& forall|i: int| 0 <= i < s.len() ==> #[trigger] s[i] != '='
    &&& !occurs_at(s + " "@, "internal "@, 0)
    &&& !occurs_at(s + " "@, "static "@, 0)
    &&& !occurs_at(s + " "@, "readonly "@, 0)
    &&& !occurs_at(s + " "@, "const "@, 0)
    &&& !occurs_at(s + " "@, "volatile "@, 0)
    &&& !occurs_at(s + " "@, "unsafe "@, 0)
}

/// A field's name.
pub open spec fn is_field_name(s: Seq<char>) -> bool {
    &&& s.len() > 0
    &&& forall|i: int| 0 <= i < s.len() ==> !is_white(#[trigger] s[i]) && s[i] != '='
}

/// An offset as it is written behind `0x`.
pub open spec fn is_written_offset(s: Seq<char>) -> bool {
    &&& s.len() > 0
    &&& forall|i: int| 0 <= i < s.len() ==> !is_white(#[trigger] s[i]) && s[i] != ';'
}

/// An initialiser, or none.
pub open spec fn is_initialiser(s: Seq<char>) -> bool {
    s.len() == 0 || occurs_at(s, " = "@, 0)
}

/// `static` is among the modifiers.
pub open spec fn says_static(modifiers: Seq<Seq<char>>) -> bool {
    exists|i: int| 0 <= i < modifiers.len() && #[trigger] modifiers[i] == "static "@
}

/// A word and a space start a type and a name only if they start the type.
proof fn lemma_kind_start(kind: Seq<char>, name: Seq<char>, part: Seq<char>)
    requires
        part.len() > 0,
        part.last() == ' ',
        forall|i: int| 0 <= i < part.len() - 1 ==> #[trigger] part[i] != ' ',
        !occurs_at(kind + " "@, part, 0),
    ensures
        !occurs_at(kind + " "@ + name, part, 0),
{
    reveal_strlit(" ");
    let short = kind + " "@;
    let all = short + name;
    if occurs_at(all, part, 0) {
        if part.len() <= short.len() {
            assert(short.subrange(0, part.len() as int) =~= all.subrange(0, part.len() as int));
        } else {
            let n = kind.len() as int;
            lemma_start_char(all, part, n);
            assert(all[n] == ' ');
        }
    }
}

proof fn lemma_field_type_start(kind: Seq<char>, name: Seq<char>)
    requires
        is_field_type(kind),
    ensures
        follows_access(kind + " "@ + name),
        forall|s: bool| #[trigger] after_field_modifiers(kind + " "@ + name, s) == (
            kind + " "@ + name,
            s,
        ),
{
    reveal_strlit("internal ");
    reveal_strlit("static ");
    reveal_strlit("readonly ");
    reveal_strlit("const ");
    reveal_strlit("volatile ");
    reveal_strlit("unsafe ");
    lemma_kind_start(kind, name, "internal "@);
    lemma_kind_start(kind, name, "static "@);
    lemma_kind_start(kind, name, "readonly "@);
    lemma_kind_start(kind, name, "const "@);
    lemma_kind_start(kind, name, "volatile "@);
    lemma_kind_start(kind, name, "unsafe "@);
}

proof fn lemma_field_modifier(word: Seq<char>, rest: Seq<char>, s: bool)
    requires
        is_field_modifier(word),
    ensures
        after_field_modifiers(word + rest, s) == after_field_modifiers(
            rest,
            s || word == "static "@,
        ),
        follows_access(word + rest),
        forall|i: int| 0 <= i < word.len() ==> #[trigger] word[i] != '=',
{
    reveal_strlit("static ");
    reveal_strlit("readonly ");
    reveal_strlit("const ");
    reveal_strlit("volatile ");
    reveal_strlit("unsafe ");
    reveal_strlit("internal ");
    let all = word + rest;
    lemma_comes_off(word, rest);
    lemma_modifiers_shorten(all);
    assert(all[0] == word[0]);
    lemma_start_char(all, "static "@, 0);
    lemma_start_char(all, "readonly "@, 0);
    lemma_start_char(all, "const "@, 0);
    lemma_start_char(all, "volatile "@, 0);
    lemma_start_char(all, "unsafe "@, 0);
    lemma_start_char(all, "internal "@, 0);
}

proof fn lemma_field_modifiers(
    words: Seq<Seq<char>>,
    kind: Seq<char>,
    name: Seq<char>,
    s: bool,
)
    requires
        forall|i: int| 0 <= i < words.len() ==> is_field_modifier(#[trigger] words[i]),
        is_field_type(kind),
    ensures
        after_field_modifiers(spelled(words) + (kind + " "@ + name), s) == (
            kind + " "@ + name,
            s || says_static(words),
        ),
        follows_access(spelled(words) + (kind + " "@ + name)),
        forall|i: int| 0 <= i < spelled(words).len() ==> #[trigger] spelled(words)[i] != '=',
    decreases words.len(),
{
    let rest = kind + " "@ + name;
    lemma_field_type_start(kind, name);
    if words.len() > 0 {
        let others = words.skip(1);
        let after = spelled(others) + rest;
        assert forall|i: int| 0 <= i < others.len() implies is_field_modifier(
            #[trigger] others[i],
        ) by {
            assert(others[i] == words[i + 1]);
        }
        assert(is_field_modifier(words[0]));
        assert(spelled(words) + rest =~= words[0] + after);
        lemma_field_modifier(words[0], after, s);
        lemma_field_modifiers(others, kind, name, s || words[0] == "static "@);
        if says_static(words) && words[0] != "static "@ {
            let i = choose|i: int| 0 <= i < words.len() && #[trigger] words[i] == "static "@;
            assert(others[i - 1] == "static "@);
        }
        if says_static(others) {
            let i = choose|i: int| 0 <= i < others.len() && #[trigger] others[i] == "static "@;
            assert(words[i + 1] == "static "@);
        }
        assert forall|i: int| 0 <= i < spelled(words).len() implies #[trigger] spelled(words)[i]
            != '=' by {
            if i >= words[0].len() {
                assert(spelled(words)[i] == spelled(others)[i - words[0].len()]);
            } else {
                assert(spelled(words)[i] == words[0][i]);
            }
        }
    } else {
        assert(spelled(words) + rest =~= rest);
    }
}

/// The type and the name of a declaration.
proof fn lemma_named(
    access: Seq<char>,
    modifiers: Seq<Seq<char>>,
    kind: Seq<char>,
    name: Seq<char>,
    n: i64,
)
    requires
        is_access(access),
        forall|i: int| 0 <= i < modifiers.len() ==> is_field_modifier(#[trigger] modifiers[i]),
        is_field_type(kind),
        is_field_name(name),
    ensures
        named_field(access + (spelled(modifiers) + (kind + " "@ + name)), n) == Some(
            (
                name,
                FieldView { offset: n, is_static: says_static(modifiers), field_type: kind },
            ),
        ),
{
    reveal_strlit(" ");
    let rest = kind + " "@ + name;
    lemma_field_modifiers(modifiers, kind, name, false);
    lemma_access(access, spelled(modifiers) + rest);
    let split = kind.len() as int;
    assert(last_at(rest, " "@, split)) by {
        assert(rest.subrange(split, split + 1) =~= " "@);
        assert forall|i: int| i > split implies !occurs_at(rest, " "@, i) by {
            if occurs_at(rest, " "@, i) {
                assert(rest.subrange(i, i + 1)[0] == rest[i]);
                assert(rest[i] == name[i - split - 1]);
            }
        }
    }
    lemma_rfind_is(rest, " "@, split);
    assert(rest.skip(split + 1) =~= name);
    assert(rest.take(split) =~= kind);
    assert(name.last() == name[name.len() - 1]);
    lemma_nothing_to_trim(name);
    lemma_nothing_to_trim(kind);
}

/// An initialiser is no part of the declaration.
proof fn lemma_uninitialised(declaration: Seq<char>, initialiser: Seq<char>)
    requires
        forall|i: int| 0 <= i < declaration.len() ==> #[trigger] declaration[i] != '=',
        is_initialiser(initialiser),
    ensures
        before(declaration + initialiser, " = "@) == declaration,
{
    reveal_strlit(" = ");
    let all = declaration + initialiser;
    let n = declaration.len() as int;
    assert forall|at: int| at < n implies !occurs_at(all, " = "@, at) by {
        if occurs_at(all, " = "@, at) {
            assert(all.subrange(at, at + 3)[1] == all[at + 1]);
            if at + 1 < n {
                assert(all[at + 1] == declaration[at + 1]);
            } else if initialiser.len() > 0 {
                lemma_start_char(initialiser, " = "@, 0);
                assert(all[at + 1] == initialiser[0]);
            }
        }
    }
    if initialiser.len() == 0 {
        assert(all =~= declaration);
        assert forall|at: int| !occurs_at(all, " = "@, at) by {}
    } else {
        assert(all.subrange(n, n + 3) =~= initialiser.subrange(0, 3));
        lemma_find_is(all, " = "@, n);
        assert(all.take(n) =~= declaration);
    }
}

proof fn lemma_offset_behind(head: Seq<char>, offset: Seq<char>)
    requires
        is_written_offset(offset),
    ensures
        rfind(head + "; // "@ + ("0x"@ + offset), "; // "@) == Some(head.len() as int),
        (head + "; // "@ + ("0x"@ + offset)).take(head.len() as int) == head,
        (head + "; // "@ + ("0x"@ + offset)).skip(head.len() as int + 5) == "0x"@ + offset,
{
    reveal_strlit("; // ");
    reveal_strlit("0x");
    let written = "0x"@ + offset;
    let mark = "; // "@;
    let all = head + mark + written;
    let at = head.len() as int;
    assert(all.subrange(at, at + 5) =~= mark);
    assert(mark[1] != ';' && mark[2] != ';' && mark[3] != ';' && mark[4] != ';');
    assert forall|i: int| i > at implies !occurs_at(all, mark, i) by {
        if occurs_at(all, mark, i) {
            assert(all.subrange(i, i + 5)[0] == all[i]);
            assert(mark[0] == ';');
            if i < at + 5 {
                assert(all[i] == mark[i - at]);
            } else {
                assert(all[i] == written[i - at - 5]);
                if i >= at + 7 {
                    assert(written[i - at - 5] == offset[i - at - 7]);
                } else {
                    assert(written[i - at - 5] == "0x"@[i - at - 5]);
                }
            }
        }
    }
    lemma_rfind_is(all, mark, at);
    assert(all.take(at) =~= head);
    assert(all.skip(at + 5) =~= written);
}

proof fn lemma_written(offset: Seq<char>)
    requires
        is_written_offset(offset),
    ensures
        strip_prefix(trim("0x"@ + offset), "0x"@) == Some(offset),
{
    reveal_strlit("0x");
    let written = "0x"@ + offset;
    assert(written[0] == '0');
    assert(written.last() == offset[offset.len() - 1]);
    lemma_nothing_to_trim(written);
    lemma_comes_off("0x"@, offset);
}

/// However a field is declared (with any access modifier, any run of modifiers,
/// with or without an initialiser), its line declares the field of that name and
/// type at that offset, static if and only if `static` is among the modifiers.
#[verifier::rlimit(40)]
pub proof fn every_spelling_declares_its_field(
    access: Seq<char>,
    modifiers: Seq<Seq<char>>,
    kind: Seq<char>,
    name: Seq<char>,
    initialiser: Seq<char>,
    offset: Seq<char>,
    n: i64,
)
    requires
        is_access(access),
        forall|i: int| 0 <= i < modifiers.len() ==> is_field_modifier(#[trigger] modifiers[i]),
        is_field_type(kind),
        is_field_name(name),
        is_initialiser(initialiser),
        is_written_offset(offset),
        parsed(offset, 16, i64::MIN as int, i64::MAX as int) == Some(n as int),
    ensures
        declared_field(
            "\t"@ + (access + (spelled(modifiers) + (kind + " "@ + name)) + initialiser + "; // "@
                + ("0x"@ + offset)),
        ) == Some(
            (
                name,
                FieldView { offset: n, is_static: says_static(modifiers), field_type: kind },
            ),
        ),
{
    reveal_strlit("\t");
    let declaration = access + (spelled(modifiers) + (kind + " "@ + name));
    let head = declaration + initialiser;
    let body = head + "; // "@ + ("0x"@ + offset);
    let line = "\t"@ + body;
    assert(line.skip(1) =~= body);
    assert forall|i: int| 0 <= i < declaration.len() implies #[trigger] declaration[i] != '=' by {
        lemma_no_equals(access, modifiers, kind, name, i);
    }
    lemma_named(access, modifiers, kind, name, n);
    lemma_uninitialised(declaration, initialiser);
    lemma_offset_behind(head, offset);
    lemma_written(offset);
    let behind = spelled(modifiers) + (kind + " "@ + name) + initialiser + "; // "@ + ("0x"@
        + offset);
    assert(body =~= access + behind);
    lemma_first_char(access, behind);
}

proof fn lemma_first_char(access: Seq<char>, behind: Seq<char>)
    requires
        is_access(access),
    ensures
        (access + behind).len() > 0,
        (access + behind)[0] != '\t',
        (access + behind)[0] != '[',
        !occurs_at(access + behind, "//"@, 0),
{
    let body = access + behind;
    reveal_strlit("public ");
    reveal_strlit("private ");
    reveal_strlit("internal ");
    reveal_strlit("protected internal ");
    reveal_strlit("protected ");
    reveal_strlit("//");
    assert(body[0] == access[0]);
    lemma_start_char(body, "//"@, 0);
}

proof fn lemma_no_equals(
    access: Seq<char>,
    modifiers: Seq<Seq<char>>,
    kind: Seq<char>,
    name: Seq<char>,
    i: int,
)
    requires
        is_access(access),
        forall|i: int| 0 <= i < modifiers.len() ==> is_field_modifier(#[trigger] modifiers[i]),
        is_field_type(kind),
        is_field_name(name),
        0 <= i < (access + (spelled(modifiers) + (kind + " "@ + name))).len(),
    ensures
        (access + (spelled(modifiers) + (kind + " "@ + name)))[i] != '=',
{
    reveal_strlit("public ");
    reveal_strlit("private ");
    reveal_strlit("internal ");
    reveal_strlit("protected internal ");
    reveal_strlit("protected ");
    reveal_strlit(" ");
    lemma_field_modifiers(modifiers, kind, name, false);
    let all = access + (spelled(modifiers) + (kind + " "@ + name));
    let a = access.len() as int;
    let b = a + spelled(modifiers).len();
    let c = b + kind.len();
    if i < a {
        assert(all[i] == access[i]);
    } else if i < b {
        assert(all[i] == spelled(modifiers)[i - a]);
    } else if i < c {
        assert(all[i] == kind[i - b]);
    } else if i > c {
        assert(all[i] == name[i - c - 1]);
    } else {
        assert(all[i] == ' ');
    }
}

/// A method's name is the last word before its parameters, whatever stands
/// before it and in them.
pub proof fn a_method_is_named_before_its_parameters(
    head: Seq<char>,
    name: Seq<char>,
    parameters: Seq<char>,
)
    requires
        forall|i: int| 0 <= i < head.len() ==> #[trigger] head[i] != '(',
        name.len() > 0,
        forall|i: int| 0 <= i < name.len() ==> #[trigger] name[i] != '(' && name[i] != ' ',
    ensures
        declared_method("\t"@ + (head + " "@ + name) + ("("@ + parameters)) == Some(name),
{
    reveal_strlit("\t");
    reveal_strlit(" ");
    reveal_strlit("(");
    let front = head + " "@ + name;
    let rest = front + ("("@ + parameters);
    let line = "\t"@ + front + ("("@ + parameters);
    let n = front.len() as int;
    assert(line.skip(1) =~= rest);
    assert(rest.subrange(n, n + 1) =~= "("@);
    assert(line.subrange(n + 1, n + 2) =~= "("@);
    assert(occurs_at(line, "("@, n + 1));
    assert forall|at: int| at < n implies !occurs_at(rest, "("@, at) by {
        if occurs_at(rest, "("@, at) {
            assert(rest.subrange(at, at + 1)[0] == rest[at]);
            assert(rest[at] == front[at]);
            if at < head.len() {
                assert(front[at] == head[at]);
            } else if at > head.len() {
                assert(front[at] == name[at - head.len() - 1]);
            }
        }
    }
    lemma_find_is(rest, "("@, n);
    assert(rest.take(n) =~= front);
    let split = head.len() as int;
    assert(front.subrange(split, split + 1) =~= " "@);
    assert forall|i: int| i > split implies !occurs_at(front, " "@, i) by {
        if occurs_at(front, " "@, i) {
            assert(front.subrange(i, i + 1)[0] == front[i]);
            assert(front[i] == name[i - split - 1]);
        }
    }
    lemma_rfind_is(front, " "@, split);
    assert(front.skip(split + 1) =~= name);
}

/// The address that a comment reports for the method below it is what stands
/// behind `RVA: 0x`, up to the next space.
pub proof fn an_address_is_read_up_to_the_next_space(written: Seq<char>, rest: Seq<char>, rva: u64)
    requires
        forall|i: int| 0 <= i < written.len() ==> #[trigger] written[i] != ' ',
        parsed(written, 16, 0, u64::MAX as int) == Some(rva as int),
    ensures
        reported_rva("\t// RVA: 0x"@ + (written + (" "@ + rest))) == Some(rva),
        reported_rva("\t// RVA: 0x"@ + written) == Some(rva),
{
    reveal_strlit(" ");
    let more = written + (" "@ + rest);
    let n = written.len() as int;
    lemma_comes_off("\t// RVA: 0x"@, more);
    lemma_comes_off("\t// RVA: 0x"@, written);
    assert(more.subrange(n, n + 1) =~= " "@);
    assert forall|at: int| at < n implies !occurs_at(more, " "@, at) && !occurs_at(
        written,
        " "@,
        at,
    ) by {
        if occurs_at(more, " "@, at) {
            assert(more.subrange(at, at + 1)[0] == more[at]);
            assert(more[at] == written[at]);
        }
        if occurs_at(written, " "@, at) {
            assert(written.subrange(at, at + 1)[0] == written[at]);
        }
    }
    lemma_find_is(more, " "@, n);
    assert(more.take(n) =~= written);
    assert(!contains(written, " "@));
}

} // verus!
