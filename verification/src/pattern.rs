//! Byte signatures: the `"48 8B 05 ? ? ? ?"` strings the client scans for.
//!
//! A signature is only as unique as the rules it is matched under, so these are
//! the rules of the client:
//!
//!   * the search runs over the module as it is mapped in memory, not the file;
//!   * `?` matches any single byte;
//!   * the reported location is the module-relative address of the match plus
//!     `patternOffset`.

use vstd::prelude::*;

use crate::error::{agrees_in_view, Error, ErrorView, Result};
use crate::numbers::{
    capital_digit, digit_value, digits_value, hex_is_read_digit_by_digit, nibble, parse_integer, parsed,
};
use crate::text::{
    chars_of, is_white, lemma_word_length, part_views, same_chars, split_words, string_of,
    word_length, words,
};

verus! {

/// `None` is a wildcard byte.
#[derive(Debug, Clone, PartialEq, Eq)]
pub struct Pattern {
    bytes: Vec<Option<u8>>,
}

impl View for Pattern {
    type V = Seq<Option<u8>>;

    closed spec fn view(&self) -> Seq<Option<u8>> {
        self.bytes@
    }
}

/// Whether `pattern` matches `haystack` at position `at`.
pub open spec fn fits(pattern: Seq<Option<u8>>, haystack: Seq<u8>, at: int) -> bool {
    &&& 0 <= at
    &&& at + pattern.len() <= haystack.len()
    &&& forall|i: int|
        0 <= i < pattern.len() ==> (#[trigger] pattern[i] is None || pattern[i] == Some(
            haystack[at + i],
        ))
}

/// The positions before `end` at which `pattern` matches, in ascending order.
pub open spec fn matches_before(
    pattern: Seq<Option<u8>>,
    haystack: Seq<u8>,
    end: int,
) -> Seq<usize>
    decreases end,
{
    if end <= 0 {
        Seq::empty()
    } else {
        let before = matches_before(pattern, haystack, end - 1);
        if fits(pattern, haystack, end - 1) {
            before.push((end - 1) as usize)
        } else {
            before
        }
    }
}

/// Every position at which `pattern` matches, in ascending order.
pub open spec fn all_matches(pattern: Seq<Option<u8>>, haystack: Seq<u8>) -> Seq<usize> {
    matches_before(pattern, haystack, haystack.len() as int + 1)
}

/// The number of bytes of `pattern` that are spelled out.
pub open spec fn literals(pattern: Seq<Option<u8>>) -> nat
    decreases pattern.len(),
{
    if pattern.len() == 0 {
        0
    } else {
        literals(pattern.drop_last()) + (if pattern.last() is Some {
            1nat
        } else {
            0nat
        })
    }
}

/// What one word of a signature stands for; `None` where it stands for nothing.
pub open spec fn token_byte(token: Seq<char>) -> Option<Option<u8>> {
    if token == "?"@ || token == "??"@ {
        Some(None)
    } else {
        match parsed(token, 16, 0, 255) {
            Some(n) => Some(Some(n as u8)),
            None => None,
        }
    }
}

/// What a row of words stands for, or the first that stands for nothing.
pub open spec fn token_bytes(tokens: Seq<Seq<char>>) -> std::result::Result<
    Seq<Option<u8>>,
    Seq<char>,
>
    decreases tokens.len(),
{
    if tokens.len() == 0 {
        Ok(Seq::empty())
    } else {
        match token_bytes(tokens.drop_last()) {
            Err(bad) => Err(bad),
            Ok(bytes) => match token_byte(tokens.last()) {
                Some(byte) => Ok(bytes.push(byte)),
                None => Err(tokens.last()),
            },
        }
    }
}

/// The signature that `text` spells.
pub open spec fn pattern_of(text: Seq<char>) -> std::result::Result<Seq<Option<u8>>, ErrorView> {
    match token_bytes(words(text)) {
        Err(bad) => Err(
            ErrorView::Malformed("'"@ + bad + "' is not a hex byte or wildcard in signature"@),
        ),
        Ok(bytes) => if bytes.len() == 0 {
            Err(ErrorView::Malformed("signature is empty"@))
        } else {
            Ok(bytes)
        },
    }
}

/// How one byte of a signature is written.
pub open spec fn byte_text(byte: Option<u8>) -> Seq<char> {
    match byte {
        Some(value) => seq![capital_digit((value / 16) as int), capital_digit((value % 16) as int)],
        None => seq!['?'],
    }
}

/// How a signature is written: its bytes with one space between them.
pub open spec fn pattern_text(pattern: Seq<Option<u8>>) -> Seq<char>
    decreases pattern.len(),
{
    if pattern.len() == 0 {
        Seq::empty()
    } else if pattern.len() == 1 {
        byte_text(pattern[0])
    } else {
        pattern_text(pattern.drop_last()).push(' ') + byte_text(pattern.last())
    }
}

pub proof fn lemma_matches_before_len(pattern: Seq<Option<u8>>, haystack: Seq<u8>, a: int, b: int)
    requires
        0 <= a <= b,
    ensures
        matches_before(pattern, haystack, a).is_prefix_of(matches_before(pattern, haystack, b)),
        matches_before(pattern, haystack, a).len() <= matches_before(pattern, haystack, b).len(),
        matches_before(pattern, haystack, b).len() <= b,
    decreases b,
{
    if a < b {
        lemma_matches_before_len(pattern, haystack, a, b - 1);
    } else if b > 0 {
        lemma_matches_before_len(pattern, haystack, a - 1, b - 1);
    }
}

/// A position is listed if and only if the pattern matches there.
pub proof fn lemma_listed(pattern: Seq<Option<u8>>, haystack: Seq<u8>, end: int)
    requires
        end <= usize::MAX + 1,
    ensures
        forall|i: int|
            0 <= i < matches_before(pattern, haystack, end).len() ==> fits(
                pattern,
                haystack,
                (#[trigger] matches_before(pattern, haystack, end)[i]) as int,
            ) && matches_before(pattern, haystack, end)[i] < end,
        forall|at: int|
            at < end && #[trigger] fits(pattern, haystack, at) ==> matches_before(
                pattern,
                haystack,
                end,
            ).contains(at as usize),
    decreases end,
{
    if end > 0 {
        lemma_listed(pattern, haystack, end - 1);
        let before = matches_before(pattern, haystack, end - 1);
        let all = matches_before(pattern, haystack, end);
        assert forall|at: int| at < end && #[trigger] fits(pattern, haystack, at) implies all.contains(
            at as usize,
        ) by {
            if at == end - 1 {
                assert(all[all.len() - 1] == at as usize);
            } else {
                let k = choose|k: int| 0 <= k < before.len() && before[k] == at as usize;
                assert(all[k] == at as usize);
            }
        }
    }
}

/// A pattern with exactly one match matches nowhere else.
pub proof fn lemma_only_match(pattern: Seq<Option<u8>>, haystack: Seq<u8>, at: int)
    requires
        haystack.len() <= usize::MAX,
        all_matches(pattern, haystack).len() == 1,
        fits(pattern, haystack, at),
    ensures
        all_matches(pattern, haystack)[0] == at,
{
    lemma_listed(pattern, haystack, haystack.len() as int + 1);
    assert(all_matches(pattern, haystack).contains(at as usize));
}

/// A longer or stricter pattern matches at those positions of the first one
/// at which it still matches: filtering gives what a new scan would.
pub proof fn narrowing_keeps_the_list_complete(
    wide: Seq<Option<u8>>,
    narrow: Seq<Option<u8>>,
    haystack: Seq<u8>,
)
    requires
        haystack.len() <= usize::MAX,
        forall|at: int|
            #[trigger] fits(narrow, haystack, at) ==> fits(wide, haystack, at),
    ensures
        all_matches(narrow, haystack) == all_matches(wide, haystack).filter(
            |at: usize| fits(narrow, haystack, at as int),
        ),
{
    lemma_narrow(wide, narrow, haystack, haystack.len() as int + 1);
}

proof fn lemma_narrow(
    wide: Seq<Option<u8>>,
    narrow: Seq<Option<u8>>,
    haystack: Seq<u8>,
    end: int,
)
    requires
        end <= usize::MAX + 1,
        forall|at: int|
            #[trigger] fits(narrow, haystack, at) ==> fits(wide, haystack, at),
    ensures
        matches_before(narrow, haystack, end) == matches_before(wide, haystack, end).filter(
            |at: usize| fits(narrow, haystack, at as int),
        ),
    decreases end,
{
    reveal(Seq::filter);
    let keep = |at: usize| fits(narrow, haystack, at as int);
    if end > 0 {
        lemma_narrow(wide, narrow, haystack, end - 1);
        let before = matches_before(wide, haystack, end - 1);
        if fits(wide, haystack, end - 1) {
            assert(before.push((end - 1) as usize).drop_last() =~= before);
        }
    } else {
        assert(matches_before(wide, haystack, end).filter(keep) =~= Seq::empty());
    }
}

/// A pattern that `more` continues matches wherever the whole does.
pub proof fn appending_only_rules_out(
    pattern: Seq<Option<u8>>,
    more: Seq<Option<u8>>,
    haystack: Seq<u8>,
    at: int,
)
    requires
        fits(pattern + more, haystack, at),
    ensures
        fits(pattern, haystack, at),
{
    assert forall|i: int| 0 <= i < pattern.len() implies (#[trigger] pattern[i] is None
        || pattern[i] == Some(haystack[at + i])) by {
        assert((pattern + more)[i] == pattern[i]);
    }
}

/// `positions` moved back by `step`, as far as `pattern` matches there.
pub open spec fn moved_back(
    positions: Seq<usize>,
    step: int,
    pattern: Seq<Option<u8>>,
    haystack: Seq<u8>,
) -> Seq<usize>
    decreases positions.len(),
{
    if positions.len() == 0 {
        Seq::empty()
    } else {
        let before = moved_back(positions.drop_last(), step, pattern, haystack);
        let at = positions.last() - step;
        if fits(pattern, haystack, at) {
            before.push(at as usize)
        } else {
            before
        }
    }
}

/// Where a pattern is extended at its front, its matches are those of the
/// shorter pattern, moved back by what was put before it, as far as the longer
/// one matches there.
pub proof fn prepending_keeps_the_list_complete(
    front: Seq<Option<u8>>,
    pattern: Seq<Option<u8>>,
    haystack: Seq<u8>,
)
    requires
        haystack.len() <= usize::MAX,
    ensures
        all_matches(front + pattern, haystack) == moved_back(
            all_matches(pattern, haystack),
            front.len() as int,
            front + pattern,
            haystack,
        ),
{
    let end = haystack.len() as int + 1;
    lemma_moved(front, pattern, haystack, end);
    lemma_no_late_matches(front + pattern, haystack, end - front.len(), end);
}

proof fn lemma_no_late_matches(pattern: Seq<Option<u8>>, haystack: Seq<u8>, a: int, b: int)
    requires
        a <= b,
        forall|at: int| a <= at < b ==> !fits(pattern, haystack, at),
    ensures
        matches_before(pattern, haystack, a) == matches_before(pattern, haystack, b),
    decreases b - a,
{
    if a < b {
        lemma_no_late_matches(pattern, haystack, a, b - 1);
    }
}

proof fn lemma_moved(
    front: Seq<Option<u8>>,
    pattern: Seq<Option<u8>>,
    haystack: Seq<u8>,
    end: int,
)
    requires
        end <= usize::MAX + 1,
    ensures
        matches_before(front + pattern, haystack, end - front.len()) == moved_back(
            matches_before(pattern, haystack, end),
            front.len() as int,
            front + pattern,
            haystack,
        ),
    decreases end,
{
    let whole = front + pattern;
    if end > 0 {
        lemma_moved(front, pattern, haystack, end - 1);
        let before = matches_before(pattern, haystack, end - 1);
        let at = end - 1 - front.len();
        if fits(whole, haystack, at) {
            assert forall|i: int| 0 <= i < pattern.len() implies (#[trigger] pattern[i] is None
                || pattern[i] == Some(haystack[end - 1 + i])) by {
                assert(whole[front.len() + i] == pattern[i]);
            }
            assert(fits(pattern, haystack, end - 1));
        }
        if fits(pattern, haystack, end - 1) {
            assert(before.push((end - 1) as usize).drop_last() =~= before);
        }
    }
}

proof fn lemma_words_split(a: Seq<char>, c: char, b: Seq<char>)
    requires
        is_white(c),
    ensures
        words(a.push(c) + b) == words(a) + words(b),
    decreases a.len(),
{
    let whole = a.push(c) + b;
    if a.len() == 0 {
        assert(whole.skip(1) =~= b);
        assert(words(a) + words(b) =~= words(b));
    } else if is_white(a[0]) {
        lemma_words_split(a.skip(1), c, b);
        assert(whole.skip(1) =~= a.skip(1).push(c) + b);
    } else {
        lemma_word_length(a);
        lemma_word_length(whole);
        let n = word_length(a) as int;
        let m = word_length(whole) as int;
        assert(n == m) by {
            if n < m {
                assert(!is_white(whole[n]));
            }
            if m < n {
                assert(is_white(whole[m]));
            }
        }
        lemma_words_split(a.skip(n), c, b);
        assert(whole.take(n) =~= a.take(n));
        assert(whole.skip(n) =~= a.skip(n).push(c) + b);
        assert(words(a) + words(b) =~= seq![a.take(n)] + (words(a.skip(n)) + words(b)));
    }
}

proof fn lemma_one_word(w: Seq<char>)
    requires
        w.len() > 0,
        forall|i: int| 0 <= i < w.len() ==> !is_white(w[i]),
    ensures
        words(w) == seq![w],
{
    lemma_word_length(w);
    assert(word_length(w) == w.len());
    assert(w.take(w.len() as int) =~= w);
    let rest = w.skip(w.len() as int);
    assert(rest.len() == 0);
    assert(words(rest) == Seq::<Seq<char>>::empty());
    assert(!is_white(w[0]));
    assert(words(w) == seq![w.take(w.len() as int)] + words(rest));
    assert(words(w) =~= seq![w]);
}

proof fn lemma_byte_text(byte: Option<u8>)
    ensures
        words(byte_text(byte)) == seq![byte_text(byte)],
        token_byte(byte_text(byte)) == Some(byte),
{
    let t = byte_text(byte);
    reveal_strlit("?");
    reveal_strlit("??");
    match byte {
        None => {
            assert(t =~= "?"@);
        },
        Some(v) => {
            let high = capital_digit((v / 16) as int);
            let low = capital_digit((v % 16) as int);
            assert(digit_value(high, 16) == Some((v / 16) as int));
            assert(digit_value(low, 16) == Some((v % 16) as int));
            assert(t[0] == high && t[1] == low);
            assert(t.drop_last() =~= seq![high]);
            assert(seq![high].drop_last() =~= Seq::empty());
            assert(digits_value(Seq::empty(), 16) == Some(0int));
            assert(digits_value(seq![high], 16) == Some((v / 16) as int));
            assert(digits_value(t, 16) == Some((v / 16) as int * 16 + (v % 16) as int));
            assert((v / 16) as int * 16 + (v % 16) as int == v);
            assert(t[0] != '?' && t[0] != '+' && t[0] != '-');
            assert("?"@[0] == '?' && "??"@[0] == '?');
        },
    }
    lemma_one_word(t);
}

proof fn lemma_text_words(pattern: Seq<Option<u8>>)
    requires
        pattern.len() > 0,
    ensures
        words(pattern_text(pattern)) == pattern.map_values(|b: Option<u8>| byte_text(b)),
        token_bytes(pattern.map_values(|b: Option<u8>| byte_text(b))) == Ok::<
            Seq<Option<u8>>,
            Seq<char>,
        >(pattern),
    decreases pattern.len(),
{
    let tokens = pattern.map_values(|b: Option<u8>| byte_text(b));
    let shorter = pattern.drop_last();
    lemma_byte_text(pattern.last());
    assert(tokens.drop_last() =~= shorter.map_values(|b: Option<u8>| byte_text(b)));
    if pattern.len() == 1 {
        assert(tokens =~= seq![byte_text(pattern[0])]);
        assert(tokens.drop_last().len() == 0);
        assert(shorter =~= Seq::empty());
    } else {
        lemma_text_words(shorter);
        lemma_words_split(pattern_text(shorter), ' ', byte_text(pattern.last()));
        assert(tokens =~= tokens.drop_last() + seq![byte_text(pattern.last())]);
    }
    assert(tokens.last() == byte_text(pattern.last()));
    assert(token_bytes(tokens.drop_last()) == Ok::<Seq<Option<u8>>, Seq<char>>(shorter));
    assert(shorter.push(pattern.last()) =~= pattern);
}

/// A signature that is written out and read again is the same signature.
pub proof fn text_round_trips(pattern: Seq<Option<u8>>)
    requires
        pattern.len() > 0,
    ensures
        pattern_of(pattern_text(pattern)) == Ok::<Seq<Option<u8>>, ErrorView>(pattern),
{
    lemma_text_words(pattern);
}

impl Pattern {
    pub fn new(bytes: Vec<Option<u8>>) -> (r: Self)
        ensures
            r@ == bytes@,
    {
        Self { bytes }
    }

    pub fn parse(text: &str) -> (r: Result<Self>)
        ensures
            agrees_in_view(r, pattern_of(text@)),
    {
        let chars: Vec<char> = chars_of(text);
        let tokens = split_words(chars.as_slice());
        let ghost all = words(text@);
        assert(part_views(tokens@) == all);
        let mut bytes: Vec<Option<u8>> = Vec::new();
        for i in 0..tokens.len()
            invariant
                all == words(text@),
                part_views(tokens@) == all,
                token_bytes(all.take(i as int)) == Ok::<Seq<Option<u8>>, Seq<char>>(bytes@),
        {
            let token = tokens[i];
            assert(token@ == all[i as int]);
            assert(all.take(i + 1).drop_last() =~= all.take(i as int));
            assert(all.take(i + 1).last() == token@);
            if same_chars(token, "?") || same_chars(token, "??") {
                bytes.push(None);
            } else {
                match parse_integer(token, 16, 0, 255) {
                    Some(value) => {
                        bytes.push(Some(value as u8));
                    },
                    None => {
                        proof {
                            lemma_first_bad(all, i as int);
                        }
                        let mut message = "'".to_owned();
                        message.append(string_of(token).as_str());
                        message.append("' is not a hex byte or wildcard in signature");
                        return Err(Error::malformed(message));
                    },
                }
            }
        }
        assert(all.take(all.len() as int) =~= all);
        if bytes.len() == 0 {
            return Err(Error::malformed("signature is empty".to_owned()));
        }
        Ok(Self { bytes })
    }

    pub fn len(&self) -> (r: usize)
        ensures
            r == self@.len(),
    {
        self.bytes.len()
    }

    pub fn is_empty(&self) -> (r: bool)
        ensures
            r == (self@.len() == 0),
    {
        self.bytes.len() == 0
    }

    pub fn bytes(&self) -> (r: &[Option<u8>])
        ensures
            r@ == self@,
    {
        self.bytes.as_slice()
    }

    pub fn push(&mut self, byte: Option<u8>)
        ensures
            final(self)@ == old(self)@.push(byte),
    {
        self.bytes.push(byte);
    }

    /// Keeps the first `len` bytes; a shorter pattern stays as it is.
    pub fn truncate(&mut self, len: usize)
        ensures
            final(self)@ == (if len <= old(self)@.len() {
                old(self)@.take(len as int)
            } else {
                old(self)@
            }),
    {
        self.bytes.truncate(len);
    }

    /// Number of literal (non-wildcard) bytes. A signature that is mostly
    /// wildcards may be unique today by luck; this is what tells us so.
    pub fn literal_count(&self) -> (r: usize)
        ensures
            r == literals(self@),
            r <= self@.len(),
    {
        let mut count: usize = 0;
        for i in 0..self.bytes.len()
            invariant
                count == literals(self.bytes@.take(i as int)),
                count <= i,
        {
            assert(self.bytes@.take(i + 1).drop_last() =~= self.bytes@.take(i as int));
            if self.bytes[i].is_some() {
                count += 1;
            }
        }
        assert(self.bytes@.take(self.bytes@.len() as int) =~= self.bytes@);
        count
    }

    pub fn matches_at(&self, haystack: &[u8], position: usize) -> (r: bool)
        ensures
            r == fits(self@, haystack@, position as int),
    {
        let length: usize = haystack.len();
        if position > length || self.bytes.len() > length - position {
            return false;
        }
        let mut i: usize = 0;
        while i < self.bytes.len()
            invariant
                i <= self.bytes@.len(),
                position + self.bytes@.len() <= haystack@.len() == length,
                forall|j: int|
                    0 <= j < i ==> (#[trigger] self.bytes@[j] is None || self.bytes@[j] == Some(
                        haystack@[position + j],
                    )),
            decreases self.bytes@.len() - i,
        {
            if let Some(byte) = self.bytes[i] {
                if byte != haystack[position + i] {
                    return false;
                }
            }
            i += 1;
        }
        true
    }

    /// The first match positions, in ascending order: all of them, or as many
    /// as `cap` asks for where there are more. At least one is looked for.
    ///
    /// Looks at the first literal byte before anything else, which turns a
    /// 48 MB scan from "compare everything" into "look at the few hundred
    /// thousand places the first opcode byte occurs".
    pub fn find_all(&self, haystack: &[u8], cap: usize) -> (r: Vec<usize>)
        ensures
            ({
                let all = all_matches(self@, haystack@);
                let wanted = if cap == 0 {
                    1int
                } else {
                    cap as int
                };
                r@ == (if all.len() <= wanted {
                    all
                } else {
                    all.take(wanted)
                })
            }),
    {
        let ghost all = all_matches(self@, haystack@);
        let ghost wanted = if cap == 0 {
            1int
        } else {
            cap as int
        };
        let mut found: Vec<usize> = Vec::new();
        let length: usize = haystack.len();
        if self.bytes.len() > length {
            proof {
                lemma_no_late_matches(self@, haystack@, 0, haystack@.len() as int + 1);
            }
            return found;
        }
        let last_start: usize = length - self.bytes.len();
        let anchor: Option<usize> = self.first_literal();
        let mut start: usize = 0;
        loop
            invariant
                length == haystack@.len(),
                last_start == length - self@.len(),
                start <= last_start,
                match anchor {
                    Some(index) => index < self@.len() && self@[index as int] is Some,
                    None => true,
                },
                found@ == matches_before(self@, haystack@, start as int),
                wanted == (if cap == 0 {
                    1int
                } else {
                    cap as int
                }),
                found@.len() < wanted,
                all == all_matches(self@, haystack@),
            decreases last_start - start,
        {
            let plausible = match anchor {
                Some(index) => self.bytes[index] == Some(haystack[start + index]),
                None => true,
            };
            if plausible && self.matches_at(haystack, start) {
                found.push(start);
                if found.len() >= cap {
                    proof {
                        lemma_matches_before_len(
                            self@,
                            haystack@,
                            start + 1,
                            haystack@.len() as int + 1,
                        );
                        assert(all.take(found@.len() as int) =~= found@);
                        assert(all.len() == found@.len() ==> all =~= found@);
                    }
                    return found;
                }
            } else {
                assert(!fits(self@, haystack@, start as int));
            }
            assert(found@ == matches_before(self@, haystack@, start + 1));
            if start == last_start {
                proof {
                    lemma_no_late_matches(self@, haystack@, start + 1, haystack@.len() as int + 1);
                }
                return found;
            }
            start += 1;
        }
    }

    fn first_literal(&self) -> (r: Option<usize>)
        ensures
            match r {
                Some(index) => index < self@.len() && self@[index as int] is Some,
                None => forall|i: int| 0 <= i < self@.len() ==> self@[i] is None,
            },
    {
        for i in 0..self.bytes.len()
            invariant
                forall|j: int| 0 <= j < i ==> self.bytes@[j] is None,
        {
            if self.bytes[i].is_some() {
                return Some(i);
            }
        }
        None
    }

    /// Keeps only those `positions` where this pattern still matches.
    ///
    /// Extending a signature can only ever shrink the candidate set, so the
    /// growth loop filters instead of rescanning the image on every step.
    pub fn retain_matches(&self, haystack: &[u8], positions: &mut Vec<usize>)
        ensures
            final(positions)@ == old(positions)@.filter(
                |at: usize| fits(self@, haystack@, at as int),
            ),
    {
        let ghost keep = |at: usize| fits(self@, haystack@, at as int);
        let ghost before = positions@;
        let mut kept: Vec<usize> = Vec::new();
        proof {
            reveal(Seq::filter);
        }
        for i in 0..positions.len()
            invariant
                before == positions@,
                keep == (|at: usize| fits(self@, haystack@, at as int)),
                kept@ == before.take(i as int).filter(keep),
        {
            proof {
                reveal(Seq::filter);
            }
            assert(before.take(i + 1).drop_last() =~= before.take(i as int));
            let position: usize = positions[i];
            if self.matches_at(haystack, position) {
                kept.push(position);
            }
        }
        assert(before.take(before.len() as int) =~= before);
        *positions = kept;
    }

    /// The signature as the client's files spell it.
    pub fn to_string(&self) -> (r: String)
        ensures
            r@ == pattern_text(self@),
    {
        let mut out = String::new();
        for i in 0..self.bytes.len()
            invariant
                out@ == pattern_text(self.bytes@.take(i as int)),
        {
            let ghost before = out@;
            assert(self.bytes@.take(i + 1).drop_last() =~= self.bytes@.take(i as int));
            if i > 0 {
                out.push(' ');
            }
            let ghost spaced = out@;
            match self.bytes[i] {
                Some(value) => {
                    out.push(capital(value / 16));
                    out.push(capital(value % 16));
                },
                None => {
                    out.push('?');
                },
            }
            assert(out@ =~= spaced + byte_text(self.bytes@[i as int]));
        }
        assert(self.bytes@.take(self.bytes@.len() as int) =~= self.bytes@);
        out
    }
}

fn capital(d: u8) -> (r: char)
    requires
        d < 16,
    ensures
        r == capital_digit(d as int),
{
    if d < 10 {
        (48 + d) as char
    } else {
        (55 + d) as char
    }
}

proof fn lemma_first_bad(tokens: Seq<Seq<char>>, i: int)
    requires
        0 <= i < tokens.len(),
        token_bytes(tokens.take(i)) is Ok,
        token_byte(tokens[i]) is None,
    ensures
        token_bytes(tokens) == Err::<Seq<Option<u8>>, Seq<char>>(tokens[i]),
    decreases tokens.len(),
{
    if i == tokens.len() - 1 {
        assert(tokens.take(i) =~= tokens.drop_last());
    } else {
        assert(tokens.drop_last().take(i) =~= tokens.take(i));
        lemma_first_bad(tokens.drop_last(), i);
    }
}

/// A pattern fits where the bytes it spells out stand: the whole of it lies in
/// the haystack, and each byte that is no wildcard is the one there.
pub proof fn a_pattern_fits_where_its_bytes_stand(
    pattern: Seq<Option<u8>>,
    haystack: Seq<u8>,
    at: int,
)
    ensures
        fits(pattern, haystack, at) <==> 0 <= at && at + pattern.len() <= haystack.len() && forall|
            i: int,
        |
            0 <= i < pattern.len() ==> (#[trigger] pattern[i] matches Some(byte) ==> haystack[at
                + i] == byte),
{
    if 0 <= at && at + pattern.len() <= haystack.len() && forall|i: int|
        0 <= i < pattern.len() ==> (#[trigger] pattern[i] matches Some(byte) ==> haystack[at + i]
            == byte) {
        assert forall|i: int| 0 <= i < pattern.len() implies (#[trigger] pattern[i] is None
            || pattern[i] == Some(haystack[at + i])) by {}
    }
    if fits(pattern, haystack, at) {
        assert forall|i: int| 0 <= i < pattern.len() implies (
        #[trigger] pattern[i] matches Some(byte) ==> haystack[at + i] == byte) by {}
    }
}

proof fn lemma_ascending(pattern: Seq<Option<u8>>, haystack: Seq<u8>, end: int)
    requires
        end <= usize::MAX + 1,
    ensures
        forall|i: int, j: int|
            0 <= i < j < matches_before(pattern, haystack, end).len() ==> (#[trigger] matches_before(
                pattern,
                haystack,
                end,
            )[i]) < (#[trigger] matches_before(pattern, haystack, end)[j]),
    decreases end,
{
    if end > 0 {
        let before = matches_before(pattern, haystack, end - 1);
        let all = matches_before(pattern, haystack, end);
        lemma_ascending(pattern, haystack, end - 1);
        lemma_listed(pattern, haystack, end - 1);
        assert forall|i: int, j: int| 0 <= i < j < all.len() implies (#[trigger] all[i]) < (
        #[trigger] all[j]) by {
            assert(all[i] == before[i]);
            if j < before.len() {
                assert(all[j] == before[j]);
            } else {
                assert(before[i] < end - 1);
            }
        }
    }
}

/// The list of matches holds every place at which the pattern fits, once, in
/// ascending order, and no other.
pub proof fn every_match_is_listed_once(pattern: Seq<Option<u8>>, haystack: Seq<u8>)
    requires
        haystack.len() < usize::MAX,
    ensures
        forall|at: usize| all_matches(pattern, haystack).contains(at) <==> #[trigger] fits(
            pattern,
            haystack,
            at as int,
        ),
        forall|i: int, j: int|
            0 <= i < j < all_matches(pattern, haystack).len() ==> (#[trigger] all_matches(
                pattern,
                haystack,
            )[i]) < (#[trigger] all_matches(pattern, haystack)[j]),
{
    let end = haystack.len() as int + 1;
    lemma_listed(pattern, haystack, end);
    lemma_ascending(pattern, haystack, end);
    assert forall|at: usize| all_matches(pattern, haystack).contains(at) <==> #[trigger] fits(
        pattern,
        haystack,
        at as int,
    ) by {
        if all_matches(pattern, haystack).contains(at) {
            let all = all_matches(pattern, haystack);
            let i = choose|i: int| 0 <= i < all.len() && all[i] == at;
            assert(fits(pattern, haystack, all[i] as int));
        }
    }
}

/// A word of a signature is a wildcard, written with one mark or two, or a byte
/// in one or two hex digits.
pub proof fn a_word_is_a_wildcard_or_a_byte(high: char, low: char)
    ensures
        token_byte("?"@) == Some(None::<u8>),
        token_byte("??"@) == Some(None::<u8>),
        nibble(low) matches Some(d) ==> token_byte(seq![low]) == Some(Some(d as u8)),
        nibble(high) is Some && nibble(low) is Some ==> token_byte(seq![high, low]) == Some(
            Some((16 * nibble(high)->0 + nibble(low)->0) as u8),
        ),
{
    reveal_strlit("?");
    reveal_strlit("??");
    hex_is_read_digit_by_digit(seq![high], low, 0, 255);
    hex_is_read_digit_by_digit(Seq::empty(), low, 0, 255);
    hex_is_read_digit_by_digit(Seq::empty(), high, 0, 255);
    hex_is_read_digit_by_digit(seq![low], low, 0, 255);
    hex_is_read_digit_by_digit(seq![high, low], low, 0, 255);
    assert(seq![high].push(low) =~= seq![high, low]);
    assert(seq![high, low][0] == high);
    assert("?"@[0] == '?' && "??"@[0] == '?');
}

} // verus!
