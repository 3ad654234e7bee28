//! Text as a sequence of characters: the splitting, trimming and number
//! formats that the readers and the messages of this crate are built from.
//!
//! The spec functions say what an operation gives on a `Seq<char>`; the
//! executable functions work on slices of characters.

use vstd::prelude::*;
use vstd::slice::slice_subrange;
use vstd::utf8::{decode_utf8, valid_utf8};

verus! {

/// The `White_Space` property of Unicode.
pub open spec fn is_white(c: char) -> bool {
    let n = c as u32;
    ||| 0x09 <= n <= 0x0d
    ||| n == 0x20
    ||| n == 0x85
    ||| n == 0xa0
    ||| n == 0x1680
    ||| 0x2000 <= n <= 0x200a
    ||| n == 0x2028
    ||| n == 0x2029
    ||| n == 0x202f
    ||| n == 0x205f
    ||| n == 0x3000
}

/// `s` without the white space at its start.
pub open spec fn trim_start(s: Seq<char>) -> Seq<char>
    decreases s.len(),
{
    if s.len() > 0 && is_white(s[0]) {
        trim_start(s.skip(1))
    } else {
        s
    }
}

/// `s` without the white space at its end.
pub open spec fn trim_end(s: Seq<char>) -> Seq<char>
    decreases s.len(),
{
    if s.len() > 0 && is_white(s.last()) {
        trim_end(s.drop_last())
    } else {
        s
    }
}

/// `s` without the white space at its start and at its end.
pub open spec fn trim(s: Seq<char>) -> Seq<char> {
    trim_end(trim_start(s))
}

/// `s` without the run of `c` at its end.
pub open spec fn trim_end_char(s: Seq<char>, c: char) -> Seq<char>
    decreases s.len(),
{
    if s.len() > 0 && s.last() == c {
        trim_end_char(s.drop_last(), c)
    } else {
        s
    }
}

/// The length of the run of `c` at the start of `s`.
pub open spec fn run_length(s: Seq<char>, c: char) -> nat
    decreases s.len(),
{
    if s.len() > 0 && s[0] == c {
        1 + run_length(s.skip(1), c)
    } else {
        0
    }
}

/// Whether `part` stands in `s` at position `at`.
pub open spec fn occurs_at(s: Seq<char>, part: Seq<char>, at: int) -> bool {
    0 <= at && at + part.len() <= s.len() && s.subrange(at, at + part.len()) == part
}

/// Whether `part` stands somewhere in `s`.
pub open spec fn contains(s: Seq<char>, part: Seq<char>) -> bool {
    exists|at: int| occurs_at(s, part, at)
}

/// `at` is the first place where `part` stands in `s`.
pub open spec fn first_at(s: Seq<char>, part: Seq<char>, at: int) -> bool {
    occurs_at(s, part, at) && forall|i: int| i < at ==> !occurs_at(s, part, i)
}

/// `at` is the last place where `part` stands in `s`.
pub open spec fn last_at(s: Seq<char>, part: Seq<char>, at: int) -> bool {
    occurs_at(s, part, at) && forall|i: int| i > at ==> !occurs_at(s, part, i)
}

/// The first place where `part` stands in `s`.
pub open spec fn find(s: Seq<char>, part: Seq<char>) -> Option<int> {
    if contains(s, part) {
        Some(choose|at: int| first_at(s, part, at))
    } else {
        None
    }
}

/// The last place where `part` stands in `s`.
pub open spec fn rfind(s: Seq<char>, part: Seq<char>) -> Option<int> {
    if contains(s, part) {
        Some(choose|at: int| last_at(s, part, at))
    } else {
        None
    }
}

/// What stands before the first `part` in `s`; the whole of `s` where there is none.
pub open spec fn before(s: Seq<char>, part: Seq<char>) -> Seq<char> {
    match find(s, part) {
        Some(at) => s.take(at),
        None => s,
    }
}

pub open spec fn strip_prefix(s: Seq<char>, prefix: Seq<char>) -> Option<Seq<char>> {
    if occurs_at(s, prefix, 0) {
        Some(s.skip(prefix.len() as int))
    } else {
        None
    }
}

pub open spec fn strip_suffix(s: Seq<char>, suffix: Seq<char>) -> Option<Seq<char>> {
    if occurs_at(s, suffix, s.len() - suffix.len()) {
        Some(s.take(s.len() - suffix.len()))
    } else {
        None
    }
}

/// The first place where `c` stands in `s`.
pub open spec fn index_of(s: Seq<char>, c: char) -> Option<int>
    decreases s.len(),
{
    if s.len() == 0 {
        None
    } else if s[0] == c {
        Some(0)
    } else {
        match index_of(s.skip(1), c) {
            Some(i) => Some(i + 1),
            None => None,
        }
    }
}

/// The parts of `s` between the occurrences of `c`, in order; there is always at least one.
pub open spec fn split(s: Seq<char>, c: char) -> Seq<Seq<char>>
    decreases s.len(),
{
    match index_of(s, c) {
        Some(i) => if 0 <= i < s.len() {
            seq![s.take(i)] + split(s.skip(i + 1), c)
        } else {
            seq![s]
        },
        None => seq![s],
    }
}

/// A line's text: what stood before its `\n`, without one `\r` at its end.
pub open spec fn line_body(s: Seq<char>) -> Seq<char> {
    if s.len() > 0 && s.last() == '\r' {
        s.drop_last()
    } else {
        s
    }
}

/// The lines of `s`. A last line that no `\n` ends is taken as it stands, and is
/// no line at all when it is empty.
pub open spec fn lines(s: Seq<char>) -> Seq<Seq<char>>
    decreases s.len(),
{
    if s.len() == 0 {
        Seq::empty()
    } else {
        match index_of(s, '\n') {
            Some(i) => if 0 <= i < s.len() {
                seq![line_body(s.take(i))] + lines(s.skip(i + 1))
            } else {
                seq![s]
            },
            None => seq![s],
        }
    }
}

/// The number of characters at the start of `s` that are no white space.
pub open spec fn word_length(s: Seq<char>) -> nat
    decreases s.len(),
{
    if s.len() > 0 && !is_white(s[0]) {
        1 + word_length(s.skip(1))
    } else {
        0
    }
}

/// The maximal runs of characters in `s` that are no white space, in order.
pub open spec fn words(s: Seq<char>) -> Seq<Seq<char>>
    decreases s.len(),
{
    if s.len() == 0 {
        Seq::empty()
    } else if is_white(s[0]) {
        words(s.skip(1))
    } else {
        let n = word_length(s) as int;
        if 0 < n <= s.len() {
            seq![s.take(n)] + words(s.skip(n))
        } else {
            Seq::empty()
        }
    }
}

pub open spec fn lower_char(c: char) -> char {
    if 'A' <= c && c <= 'Z' {
        ((c as u8 + 32) as u8) as char
    } else {
        c
    }
}

/// `s` with the ASCII capitals made small.
pub open spec fn lower(s: Seq<char>) -> Seq<char> {
    s.map_values(|c: char| lower_char(c))
}

/// The parts one after the other, with `between` between them.
pub open spec fn joined(parts: Seq<Seq<char>>, between: Seq<char>) -> Seq<char>
    decreases parts.len(),
{
    if parts.len() == 0 {
        Seq::empty()
    } else if parts.len() == 1 {
        parts[0]
    } else {
        joined(parts.drop_last(), between) + between + parts.last()
    }
}

/// The view of an optional text.
pub open spec fn maybe_text(s: Option<String>) -> Option<Seq<char>> {
    match s {
        Some(s) => Some(s@),
        None => None,
    }
}

/// The view of each text in a list.
pub open spec fn views(list: Seq<String>) -> Seq<Seq<char>> {
    list.map_values(|s: String| s@)
}

/// The view of each text in a list of slices.
pub open spec fn str_views(list: Seq<&str>) -> Seq<Seq<char>> {
    list.map_values(|s: &str| s@)
}

/// The view of each part in a list of parts.
pub open spec fn part_views(list: Seq<&[char]>) -> Seq<Seq<char>> {
    list.map_values(|s: &[char]| s@)
}

pub proof fn lemma_find_is(s: Seq<char>, part: Seq<char>, at: int)
    requires
        first_at(s, part, at),
    ensures
        find(s, part) == Some(at),
{
    let other = choose|i: int| first_at(s, part, i);
    assert(first_at(s, part, other));
    assert(!(other < at) && !(at < other));
}

pub proof fn lemma_rfind_is(s: Seq<char>, part: Seq<char>, at: int)
    requires
        last_at(s, part, at),
    ensures
        rfind(s, part) == Some(at),
{
    let other = choose|i: int| last_at(s, part, i);
    assert(last_at(s, part, other));
    assert(!(other < at) && !(at < other));
}

/// A part whose first character is nowhere in the text is not in it.
pub proof fn lemma_absent(s: Seq<char>, part: Seq<char>)
    requires
        part.len() > 0,
        forall|i: int| 0 <= i < s.len() ==> #[trigger] s[i] != part[0],
    ensures
        !contains(s, part),
{
    assert forall|at: int| !occurs_at(s, part, at) by {
        if occurs_at(s, part, at) {
            assert(s.subrange(at, at + part.len())[0] == s[at]);
        }
    }
}

/// A text with no white space at its ends stays as it is.
pub proof fn lemma_nothing_to_trim(s: Seq<char>)
    requires
        s.len() > 0,
        !is_white(s[0]),
        !is_white(s.last()),
    ensures
        trim(s) == s,
{
}

/// Whether a text that starts with a type and a space starts with a word and a
/// space is settled by the type.
pub proof fn lemma_first_word(kind: Seq<char>, more: Seq<char>, word: Seq<char>)
    requires
        kind != word,
        forall|i: int| 0 <= i < word.len() ==> #[trigger] word[i] != ' ',
    ensures
        occurs_at(kind + " "@ + more, word + " "@, 0) == occurs_at(kind, word + " "@, 0),
{
    reveal_strlit(" ");
    let all = kind + " "@ + more;
    let part = word + " "@;
    let n = part.len() as int;
    assert(part[n - 1] == ' ');
    if occurs_at(all, part, 0) {
        assert forall|i: int| 0 <= i < n implies all[i] == part[i] by {
            assert(all.subrange(0, n)[i] == all[i]);
        }
        if kind.len() < word.len() {
            assert(all[kind.len() as int] == ' ');
            assert(part[kind.len() as int] == word[kind.len() as int]);
        } else if kind.len() == word.len() {
            assert forall|i: int| 0 <= i < kind.len() implies kind[i] == word[i] by {
                assert(all[i] == kind[i]);
                assert(part[i] == word[i]);
            }
            assert(kind =~= word);
        } else {
            assert(kind.subrange(0, n) =~= part);
        }
    }
    if occurs_at(kind, part, 0) {
        assert(all.subrange(0, n) =~= kind.subrange(0, n));
    }
}

pub proof fn lemma_index_of(s: Seq<char>, c: char)
    ensures
        match index_of(s, c) {
            Some(i) => 0 <= i < s.len() && s[i] == c && forall|j: int|
                0 <= j < i ==> s[j] != c,
            None => forall|j: int| 0 <= j < s.len() ==> s[j] != c,
        },
    decreases s.len(),
{
    if s.len() > 0 && s[0] != c {
        lemma_index_of(s.skip(1), c);
        let rest = s.skip(1);
        assert forall|j: int| 0 < j < s.len() implies s[j] == rest[j - 1] by {}
    }
}

/// Where `c` first stands at `i`, `index_of` says so.
pub proof fn lemma_index_of_is(s: Seq<char>, c: char, i: int)
    requires
        0 <= i < s.len(),
        s[i] == c,
        forall|j: int| 0 <= j < i ==> s[j] != c,
    ensures
        index_of(s, c) == Some(i),
{
    lemma_index_of(s, c);
}

pub proof fn lemma_word_length(s: Seq<char>)
    ensures
        word_length(s) <= s.len(),
        forall|j: int| 0 <= j < word_length(s) ==> !is_white(s[j]),
        word_length(s) < s.len() ==> is_white(s[word_length(s) as int]),
    decreases s.len(),
{
    if s.len() > 0 && !is_white(s[0]) {
        lemma_word_length(s.skip(1));
        let rest = s.skip(1);
        assert forall|j: int| 0 < j < s.len() implies s[j] == rest[j - 1] by {}
    }
}

pub proof fn lemma_run_length(s: Seq<char>, c: char)
    ensures
        run_length(s, c) <= s.len(),
        forall|j: int| 0 <= j < run_length(s, c) ==> s[j] == c,
        run_length(s, c) < s.len() ==> s[run_length(s, c) as int] != c,
    decreases s.len(),
{
    if s.len() > 0 && s[0] == c {
        lemma_run_length(s.skip(1), c);
        let rest = s.skip(1);
        assert forall|j: int| 0 < j < s.len() implies s[j] == rest[j - 1] by {}
    }
}

/// `String::push` appends one character.
pub assume_specification[ String::push ](s: &mut String, c: char)
    ensures
        final(s)@ == old(s)@.push(c),
;

/// The text that `String::from_utf8_lossy` makes of these bytes.
pub uninterp spec fn lossy_text(bytes: Seq<u8>) -> Seq<char>;

/// `String::from_utf8_lossy`: valid UTF-8 is decoded, and of anything else the
/// text is some function of the bytes.
#[verifier::external_body]
pub(crate) fn text_from_bytes(bytes: &[u8]) -> (r: String)
    ensures
        r@ == lossy_text(bytes@),
        valid_utf8(bytes@) ==> r@ == decode_utf8(bytes@),
{
    String::from_utf8_lossy(bytes).into_owned()
}

pub fn white(c: char) -> (r: bool)
    ensures
        r == is_white(c),
{
    let n: u32 = c as u32;
    (0x09 <= n && n <= 0x0d) || n == 0x20 || n == 0x85 || n == 0xa0 || n == 0x1680 || (0x2000 <= n
        && n <= 0x200a) || n == 0x2028 || n == 0x2029 || n == 0x202f || n == 0x205f || n == 0x3000
}

/// The characters of `text`.
pub fn chars_of(text: &str) -> (r: Vec<char>)
    ensures
        r@ == text@,
{
    let mut out: Vec<char> = Vec::new();
    for c in it: text.chars()
        invariant
            out@ =~= text@.take(it.index()),
            it.seq() == text@,
    {
        out.push(c);
    }
    assert(text@.take(text@.len() as int) =~= text@);
    out
}

/// The text made of these characters.
pub fn string_of(s: &[char]) -> (r: String)
    ensures
        r@ == s@,
{
    let mut out = String::new();
    for i in 0..s.len()
        invariant
            out@ =~= s@.take(i as int),
    {
        out.push(s[i]);
    }
    assert(s@.take(s@.len() as int) =~= s@);
    out
}

pub fn same_text(a: &str, b: &str) -> (r: bool)
    ensures
        r == (a@ == b@),
{
    a.to_owned() == b.to_owned()
}

fn stands_at(s: &[char], part: &[char], at: usize) -> (r: bool)
    requires
        at <= s@.len(),
    ensures
        r == occurs_at(s@, part@, at as int),
{
    if part.len() > s.len() - at {
        return false;
    }
    let n: usize = s.len();
    let mut i: usize = 0;
    while i < part.len()
        invariant
            i <= part@.len(),
            at + part@.len() <= s@.len() == n,
            s@.subrange(at as int, at + i) =~= part@.take(i as int),
        decreases part@.len() - i,
    {
        if s[at + i] != part[i] {
            assert(s@.subrange(at as int, at + part@.len())[i as int] != part@[i as int]);
            return false;
        }
        i += 1;
    }
    assert(part@.take(part@.len() as int) =~= part@);
    true
}

pub fn same_chars(s: &[char], text: &str) -> (r: bool)
    ensures
        r == (s@ == text@),
{
    let t: Vec<char> = chars_of(text);
    assert(s@.subrange(0, s@.len() as int) =~= s@);
    s.len() == t.len() && stands_at(s, t.as_slice(), 0)
}

pub fn without_prefix<'a>(s: &'a [char], prefix: &str) -> (r: Option<&'a [char]>)
    ensures
        match r {
            Some(rest) => strip_prefix(s@, prefix@) == Some(rest@),
            None => strip_prefix(s@, prefix@) is None,
        },
{
    let p: Vec<char> = chars_of(prefix);
    if stands_at(s, p.as_slice(), 0) {
        Some(slice_subrange(s, p.len(), s.len()))
    } else {
        None
    }
}

pub fn without_suffix<'a>(s: &'a [char], suffix: &str) -> (r: Option<&'a [char]>)
    ensures
        match r {
            Some(rest) => strip_suffix(s@, suffix@) == Some(rest@),
            None => strip_suffix(s@, suffix@) is None,
        },
{
    let p: Vec<char> = chars_of(suffix);
    if p.len() <= s.len() && stands_at(s, p.as_slice(), s.len() - p.len()) {
        Some(slice_subrange(s, 0, s.len() - p.len()))
    } else {
        None
    }
}

/// The first place where `part` stands in `s`.
pub fn find_part(s: &[char], part: &str) -> (r: Option<usize>)
    ensures
        match r {
            Some(at) => find(s@, part@) == Some(at as int) && first_at(s@, part@, at as int),
            None => find(s@, part@) is None && !contains(s@, part@),
        },
{
    let p: Vec<char> = chars_of(part);
    let mut i: usize = 0;
    while p.len() <= s.len() - i
        invariant
            p@ == part@,
            i <= s@.len(),
            forall|j: int| j < i ==> !occurs_at(s@, part@, j),
        decreases s@.len() - i,
    {
        if stands_at(s, p.as_slice(), i) {
            proof {
                lemma_find_is(s@, part@, i as int);
            }
            return Some(i);
        }
        if i == s.len() {
            return None;
        }
        i += 1;
    }
    None
}

/// The last place where `part` stands in `s`.
pub fn rfind_part(s: &[char], part: &str) -> (r: Option<usize>)
    ensures
        match r {
            Some(at) => rfind(s@, part@) == Some(at as int) && last_at(s@, part@, at as int),
            None => rfind(s@, part@) is None && !contains(s@, part@),
        },
{
    let p: Vec<char> = chars_of(part);
    if p.len() > s.len() {
        return None;
    }
    let mut i: usize = s.len() - p.len();
    loop
        invariant
            p@ == part@,
            i + p@.len() <= s@.len(),
            forall|j: int| j > i ==> !occurs_at(s@, part@, j),
        decreases i,
    {
        if stands_at(s, p.as_slice(), i) {
            proof {
                lemma_rfind_is(s@, part@, i as int);
            }
            return Some(i);
        }
        if i == 0 {
            return None;
        }
        i -= 1;
    }
}

pub fn has_part(s: &[char], part: &str) -> (r: bool)
    ensures
        r == contains(s@, part@),
{
    find_part(s, part).is_some()
}

/// What stands before the first `part` in `s`.
pub fn up_to<'a>(s: &'a [char], part: &str) -> (r: &'a [char])
    ensures
        r@ == before(s@, part@),
{
    match find_part(s, part) {
        Some(at) => slice_subrange(s, 0, at),
        None => s,
    }
}

pub fn trimmed_start<'a>(s: &'a [char]) -> (r: &'a [char])
    ensures
        r@ == trim_start(s@),
        r@.len() <= s@.len(),
{
    let mut i: usize = 0;
    assert(s@.skip(0) =~= s@);
    while i < s.len() && white(s[i])
        invariant
            i <= s@.len(),
            trim_start(s@.skip(i as int)) == trim_start(s@),
        decreases s@.len() - i,
    {
        assert(s@.skip(i as int).skip(1) =~= s@.skip(i + 1));
        i += 1;
    }
    slice_subrange(s, i, s.len())
}

pub fn trimmed_end<'a>(s: &'a [char]) -> (r: &'a [char])
    ensures
        r@ == trim_end(s@),
        r@.len() <= s@.len(),
{
    let mut i: usize = s.len();
    assert(s@.take(s@.len() as int) =~= s@);
    while i > 0 && white(s[i - 1])
        invariant
            i <= s@.len(),
            trim_end(s@.take(i as int)) == trim_end(s@),
        decreases i,
    {
        assert(s@.take(i as int).drop_last() =~= s@.take(i - 1));
        i -= 1;
    }
    slice_subrange(s, 0, i)
}

pub fn trimmed<'a>(s: &'a [char]) -> (r: &'a [char])
    ensures
        r@ == trim(s@),
        r@.len() <= s@.len(),
{
    trimmed_end(trimmed_start(s))
}

pub fn trimmed_end_char<'a>(s: &'a [char], c: char) -> (r: &'a [char])
    ensures
        r@ == trim_end_char(s@, c),
        r@.len() <= s@.len(),
{
    let mut i: usize = s.len();
    assert(s@.take(s@.len() as int) =~= s@);
    while i > 0 && s[i - 1] == c
        invariant
            i <= s@.len(),
            trim_end_char(s@.take(i as int), c) == trim_end_char(s@, c),
        decreases i,
    {
        assert(s@.take(i as int).drop_last() =~= s@.take(i - 1));
        i -= 1;
    }
    slice_subrange(s, 0, i)
}

/// The length of the run of `c` at the start of `s`.
pub fn leading_run(s: &[char], c: char) -> (r: usize)
    ensures
        r == run_length(s@, c),
        r <= s@.len(),
{
    let mut i: usize = 0;
    assert(s@.skip(0) =~= s@);
    while i < s.len() && s[i] == c
        invariant
            i <= s@.len(),
            i + run_length(s@.skip(i as int), c) == run_length(s@, c),
        decreases s@.len() - i,
    {
        assert(s@.skip(i as int).skip(1) =~= s@.skip(i + 1));
        i += 1;
    }
    i
}

fn place_of(s: &[char], c: char) -> (r: Option<usize>)
    ensures
        match r {
            Some(i) => i < s@.len() && index_of(s@, c) == Some(i as int),
            None => index_of(s@, c) is None,
        },
{
    let mut i: usize = 0;
    while i < s.len()
        invariant
            i <= s@.len(),
            forall|j: int| 0 <= j < i ==> s@[j] != c,
        decreases s@.len() - i,
    {
        if s[i] == c {
            proof {
                lemma_index_of_is(s@, c, i as int);
            }
            return Some(i);
        }
        i += 1;
    }
    proof {
        lemma_index_of(s@, c);
    }
    None
}

/// The parts of `s` between the occurrences of `c`.
pub fn split_at_char<'a>(s: &'a [char], c: char) -> (r: Vec<&'a [char]>)
    ensures
        part_views(r@) == split(s@, c),
        r@.len() >= 1,
{
    let mut out: Vec<&'a [char]> = Vec::new();
    let mut rest: &'a [char] = s;
    assert(part_views(out@) =~= Seq::<Seq<char>>::empty());
    assert(part_views(out@) + split(rest@, c) =~= split(s@, c));
    loop
        invariant
            part_views(out@) + split(rest@, c) == split(s@, c),
        decreases rest@.len(),
    {
        let ghost done = part_views(out@);
        let next: Option<usize> = place_of(rest, c);
        match next {
            Some(i) => {
                let part = slice_subrange(rest, 0, i);
                out.push(part);
                let length: usize = rest.len();
                rest = slice_subrange(rest, i + 1, length);
                assert(part_views(out@) =~= done.push(part@));
                assert(done + (seq![part@] + split(rest@, c)) =~= done.push(part@) + split(
                    rest@,
                    c,
                ));
            },
            None => {
                out.push(rest);
                assert(part_views(out@) =~= done + seq![rest@]);
                return out;
            },
        }
    }
}

/// The lines of `s`.
pub fn split_lines<'a>(s: &'a [char]) -> (r: Vec<&'a [char]>)
    ensures
        part_views(r@) == lines(s@),
{
    let mut out: Vec<&'a [char]> = Vec::new();
    let mut rest: &'a [char] = s;
    assert(part_views(out@) =~= Seq::<Seq<char>>::empty());
    assert(part_views(out@) + lines(rest@) =~= lines(s@));
    while rest.len() > 0
        invariant
            part_views(out@) + lines(rest@) == lines(s@),
        decreases rest@.len(),
    {
        let ghost done = part_views(out@);
        let next: Option<usize> = place_of(rest, '\n');
        match next {
            Some(i) => {
                let whole = slice_subrange(rest, 0, i);
                let line = if i > 0 && whole[i - 1] == '\r' {
                    slice_subrange(whole, 0, i - 1)
                } else {
                    whole
                };
                assert(line@ == line_body(whole@));
                out.push(line);
                let length: usize = rest.len();
                rest = slice_subrange(rest, i + 1, length);
                assert(part_views(out@) =~= done.push(line@));
                assert(done + (seq![line@] + lines(rest@)) =~= done.push(line@) + lines(rest@));
            },
            None => {
                out.push(rest);
                assert(part_views(out@) =~= done + seq![rest@]);
                return out;
            },
        }
    }
    assert(part_views(out@) + lines(rest@) =~= part_views(out@));
    out
}

fn leading_word(s: &[char]) -> (r: usize)
    ensures
        r == word_length(s@),
        r <= s@.len(),
{
    let mut i: usize = 0;
    assert(s@.skip(0) =~= s@);
    while i < s.len() && !white(s[i])
        invariant
            i <= s@.len(),
            i + word_length(s@.skip(i as int)) == word_length(s@),
        decreases s@.len() - i,
    {
        assert(s@.skip(i as int).skip(1) =~= s@.skip(i + 1));
        i += 1;
    }
    i
}

/// The runs of `s` that are no white space.
pub fn split_words<'a>(s: &'a [char]) -> (r: Vec<&'a [char]>)
    ensures
        part_views(r@) == words(s@),
{
    let mut out: Vec<&'a [char]> = Vec::new();
    let mut rest: &'a [char] = s;
    assert(part_views(out@) =~= Seq::<Seq<char>>::empty());
    assert(part_views(out@) + words(rest@) =~= words(s@));
    while rest.len() > 0
        invariant
            part_views(out@) + words(rest@) == words(s@),
        decreases rest@.len(),
    {
        let ghost done = part_views(out@);
        if white(rest[0]) {
            rest = slice_subrange(rest, 1, rest.len());
        } else {
            let n: usize = leading_word(rest);
            assert(word_length(rest@) > 0);
            let word = slice_subrange(rest, 0, n);
            out.push(word);
            rest = slice_subrange(rest, n, rest.len());
            assert(part_views(out@) =~= done.push(word@));
            assert(done + (seq![word@] + words(rest@)) =~= done.push(word@) + words(rest@));
        }
    }
    assert(part_views(out@) + words(rest@) =~= part_views(out@));
    out
}

/// The texts one after the other, with `between` between them.
pub fn join(parts: &Vec<&str>, between: &str) -> (r: String)
    ensures
        r@ == joined(str_views(parts@), between@),
{
    let ghost all = str_views(parts@);
    let mut out = String::new();
    for i in 0..parts.len()
        invariant
            all == str_views(parts@),
            out@ == joined(all.take(i as int), between@),
    {
        assert(all.take(i + 1).drop_last() =~= all.take(i as int));
        assert(all.take(i + 1).last() == parts@[i as int]@);
        if i == 0 {
            out = parts[i].to_owned();
        } else {
            out.append(between);
            out.append(parts[i]);
        }
    }
    assert(all.take(all.len() as int) =~= all);
    out
}

/// `text` with the ASCII capitals made small.
pub fn lowered(text: &str) -> (r: String)
    ensures
        r@ == lower(text@),
{
    let mut out = String::new();
    for c in it: text.chars()
        invariant
            out@ =~= lower(text@.take(it.index())),
            it.seq() == text@,
    {
        let small: char = if 'A' <= c && c <= 'Z' {
            (c as u8 + 32) as char
        } else {
            c
        };
        assert(small == lower_char(c));
        out.push(small);
    }
    assert(text@.take(text@.len() as int) =~= text@);
    out
}

/// Lines are what stands between newlines; a carriage return before one is no
/// part of a line, and a newline at the very end starts no line.
pub proof fn a_newline_ends_a_line(line: Seq<char>, rest: Seq<char>)
    requires
        forall|i: int| 0 <= i < line.len() ==> #[trigger] line[i] != '\n',
    ensures
        line.len() == 0 || line.last() != '\r' ==> lines(line + seq!['\n'] + rest) == seq![line]
            + lines(rest),
        lines(line + seq!['\r', '\n'] + rest) == seq![line] + lines(rest),
        line.len() > 0 ==> lines(line) == seq![line],
        lines(Seq::empty()) == Seq::<Seq<char>>::empty(),
{
    let n = line.len() as int;
    let a = line + seq!['\n'] + rest;
    assert(a[n] == '\n');
    assert forall|j: int| 0 <= j < n implies a[j] != '\n' by {
        assert(a[j] == line[j]);
    }
    lemma_index_of_is(a, '\n', n);
    assert(a.take(n) =~= line);
    assert(a.skip(n + 1) =~= rest);
    let b = line + seq!['\r', '\n'] + rest;
    assert(b[n + 1] == '\n');
    assert forall|j: int| 0 <= j < n + 1 implies b[j] != '\n' by {
        if j < n {
            assert(b[j] == line[j]);
        }
    }
    lemma_index_of_is(b, '\n', n + 1);
    assert(b.take(n + 1) =~= line.push('\r'));
    assert(line.push('\r').drop_last() =~= line);
    assert(b.skip(n + 2) =~= rest);
    lemma_index_of(line, '\n');
}

/// Trimming takes the white space off both ends, and nothing else.
pub proof fn trimming_takes_white_space_off_both_ends(
    front: Seq<char>,
    s: Seq<char>,
    back: Seq<char>,
)
    requires
        forall|i: int| 0 <= i < front.len() ==> is_white(#[trigger] front[i]),
        forall|i: int| 0 <= i < back.len() ==> is_white(#[trigger] back[i]),
        s.len() > 0,
        !is_white(s[0]),
        !is_white(s.last()),
    ensures
        trim(front + s + back) == s,
    decreases front.len() + back.len(),
{
    let all = front + s + back;
    if front.len() > 0 {
        assert(all[0] == front[0]);
        assert(all.skip(1) =~= front.skip(1) + s + back);
        assert forall|i: int| 0 <= i < front.skip(1).len() implies is_white(
            #[trigger] front.skip(1)[i],
        ) by {
            assert(front.skip(1)[i] == front[i + 1]);
        }
        trimming_takes_white_space_off_both_ends(front.skip(1), s, back);
    } else if back.len() > 0 {
        let fewer = back.drop_last();
        assert(all[0] == s[0]);
        assert(all.last() == back[back.len() - 1]);
        assert(all.drop_last() =~= front + s + fewer);
        trimming_takes_white_space_off_both_ends(front, s, fewer);
        assert(all.drop_last()[0] == s[0]);
    } else {
        assert(all =~= s);
    }
}

/// Lowering makes the ASCII capitals small and leaves all else as it is.
pub proof fn lowering_touches_capitals_only(s: Seq<char>, i: int)
    requires
        0 <= i < s.len(),
    ensures
        lower(s).len() == s.len(),
        'A' <= s[i] && s[i] <= 'Z' ==> lower(s)[i] as int == s[i] as int + 32,
        !('A' <= s[i] && s[i] <= 'Z') ==> lower(s)[i] == s[i],
{
}

proof fn lemma_word_is(word: Seq<char>, rest: Seq<char>)
    requires
        forall|i: int| 0 <= i < word.len() ==> !is_white(#[trigger] word[i]),
        rest.len() == 0 || is_white(rest[0]),
    ensures
        word_length(word + rest) == word.len(),
    decreases word.len(),
{
    let all = word + rest;
    if word.len() > 0 {
        assert(all[0] == word[0]);
        assert(all.skip(1) =~= word.skip(1) + rest);
        assert forall|i: int| 0 <= i < word.skip(1).len() implies !is_white(
            #[trigger] word.skip(1)[i],
        ) by {
            assert(word.skip(1)[i] == word[i + 1]);
        }
        lemma_word_is(word.skip(1), rest);
    } else {
        assert(all =~= rest);
    }
}

/// Words are what stands between white space, however much of it there is.
pub proof fn white_space_parts_words(word: Seq<char>, white: char, rest: Seq<char>)
    requires
        word.len() > 0,
        forall|i: int| 0 <= i < word.len() ==> !is_white(#[trigger] word[i]),
        is_white(white),
    ensures
        words(word + seq![white] + rest) == seq![word] + words(rest),
        words(seq![white] + rest) == words(rest),
        words(word) == seq![word],
        words(Seq::empty()) == Seq::<Seq<char>>::empty(),
{
    let behind = seq![white] + rest;
    let all = word + behind;
    assert(word + seq![white] + rest =~= all);
    assert(behind[0] == white);
    lemma_word_is(word, behind);
    assert(all[0] == word[0]);
    assert(all.take(word.len() as int) =~= word);
    assert(all.skip(word.len() as int) =~= behind);
    assert(behind.skip(1) =~= rest);
    assert(words(behind) == words(rest));
    assert(!is_white(word[0]));
    assert(words(all) == seq![word] + words(behind));
    lemma_word_is(word, Seq::empty());
    assert(word + Seq::empty() =~= word);
    assert(word.take(word.len() as int) =~= word);
    assert(word.skip(word.len() as int) =~= Seq::empty());
    assert(words(Seq::empty()) == Seq::<Seq<char>>::empty());
    assert(words(word) == seq![word] + words(Seq::empty()));
    assert(words(word) =~= seq![word]);
}

} // verus!
