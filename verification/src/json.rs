//! JSON values: what the generator's files are made of.

use vstd::prelude::*;

use crate::error::{agrees_in_view, Error, ErrorView, Result};
use crate::numbers::{decimal, decimal_text, digit};
use crate::text::same_text;

verus! {

/// A JSON value. The members of an object keep their order.
#[derive(Debug, PartialEq, Eq)]
pub enum Json {
    Null,
    Bool(bool),
    Integer(i64),
    /// Any other number, in the text that serde_json writes for it. With its
    /// feature `float_roundtrip`, which this crate builds it with, a fraction that
    /// was written is read back exactly, so the text is written out as it stands.
    Number(String),
    Text(String),
    List(Vec<Json>),
    Object(Vec<(String, Json)>),
}

/// What a [`Json`] says.
pub enum JsonView {
    Null,
    Bool(bool),
    Integer(i64),
    Number(Seq<char>),
    Text(Seq<char>),
    List(Seq<JsonView>),
    Object(Seq<(Seq<char>, JsonView)>),
}

/// The members of a JSON object.
pub type MembersView = Seq<(Seq<char>, JsonView)>;

pub open spec fn json_view(value: Json) -> JsonView
    decreases value,
{
    match value {
        Json::Null => JsonView::Null,
        Json::Bool(b) => JsonView::Bool(b),
        Json::Integer(n) => JsonView::Integer(n),
        Json::Number(text) => JsonView::Number(text@),
        Json::Text(text) => JsonView::Text(text@),
        Json::List(items) => JsonView::List(item_views(items@)),
        Json::Object(members) => JsonView::Object(member_views(members@)),
    }
}

pub open spec fn item_views(items: Seq<Json>) -> Seq<JsonView>
    decreases items,
{
    if items.len() == 0 {
        Seq::empty()
    } else {
        item_views(items.drop_last()).push(json_view(items.last()))
    }
}

pub open spec fn member_views(members: Seq<(String, Json)>) -> MembersView
    decreases members,
{
    if members.len() == 0 {
        Seq::empty()
    } else {
        member_views(members.drop_last()).push(
            (members.last().0@, json_view(members.last().1)),
        )
    }
}

impl View for Json {
    type V = JsonView;

    open spec fn view(&self) -> JsonView {
        json_view(*self)
    }
}

pub proof fn lemma_item_views(items: Seq<Json>)
    ensures
        item_views(items).len() == items.len(),
        forall|i: int|
            0 <= i < items.len() ==> #[trigger] item_views(items)[i] == json_view(items[i]),
    decreases items.len(),
{
    if items.len() > 0 {
        lemma_item_views(items.drop_last());
        assert forall|i: int| 0 <= i < items.len() implies #[trigger] item_views(items)[i]
            == json_view(items[i]) by {
            if i < items.len() - 1 {
                assert(item_views(items)[i] == item_views(items.drop_last())[i]);
            }
        }
    }
}

pub proof fn lemma_member_views(members: Seq<(String, Json)>)
    ensures
        member_views(members).len() == members.len(),
        forall|i: int|
            0 <= i < members.len() ==> #[trigger] member_views(members)[i] == (
                members[i].0@,
                json_view(members[i].1),
            ),
    decreases members.len(),
{
    if members.len() > 0 {
        lemma_member_views(members.drop_last());
        assert forall|i: int| 0 <= i < members.len() implies #[trigger] member_views(members)[i]
            == (members[i].0@, json_view(members[i].1)) by {
            if i < members.len() - 1 {
                assert(member_views(members)[i] == member_views(members.drop_last())[i]);
            }
        }
    }
}

/// How a character is written inside a JSON string.
pub open spec fn escaped_char(c: char) -> Seq<char> {
    let n = c as u32 as int;
    if c == '"' {
        seq!['\\', '"']
    } else if c == '\\' {
        seq!['\\', '\\']
    } else if n == 0x08 {
        seq!['\\', 'b']
    } else if n == 0x09 {
        seq!['\\', 't']
    } else if n == 0x0a {
        seq!['\\', 'n']
    } else if n == 0x0c {
        seq!['\\', 'f']
    } else if n == 0x0d {
        seq!['\\', 'r']
    } else if n < 0x20 {
        seq!['\\', 'u', '0', '0', digit(n / 16), digit(n % 16)]
    } else {
        seq![c]
    }
}

pub open spec fn escaped(text: Seq<char>) -> Seq<char>
    decreases text.len(),
{
    if text.len() == 0 {
        Seq::empty()
    } else {
        escaped(text.drop_last()) + escaped_char(text.last())
    }
}

/// A text as a JSON string.
pub open spec fn quoted(text: Seq<char>) -> Seq<char> {
    seq!['"'] + escaped(text) + seq!['"']
}

/// `serde_json::to_string` on a text: a JSON string, in which quotes,
/// backslashes and control characters are escaped and nothing else is.
#[verifier::external_body]
fn json_string(text: &str) -> (r: String)
    ensures
        r@ == quoted(text@),
{
    serde_json::to_string(text).unwrap_or_default()
}

/// The text that `serde_json::to_string_pretty` makes of the value that
/// `serde_json::from_str` reads from a JSON text, or why one of them fails.
pub uninterp spec fn pretty_json(compact: Seq<char>) -> std::result::Result<Seq<char>, Seq<char>>;

/// What a rendering says.
pub open spec fn rendering_view(
    rendering: std::result::Result<String, String>,
) -> std::result::Result<Seq<char>, Seq<char>> {
    match rendering {
        Ok(text) => Ok(text@),
        Err(why) => Err(why@),
    }
}

/// `serde_json::to_string_pretty` on what `serde_json::from_str` reads from
/// `compact`: the same JSON value over several lines, with an indent of two
/// spaces. What comes back, text or error, is a function of the text. That the
/// fractions in it are read exactly rests on serde_json's feature
/// `float_roundtrip`, and the contract does not state it.
#[verifier::external_body]
fn laid_out_json(compact: &str) -> (r: std::result::Result<String, String>)
    ensures
        rendering_view(r) == pretty_json(compact@),
{
    serde_json::from_str::<serde_json::Value>(compact)
        .and_then(|value| serde_json::to_string_pretty(&value))
        .map_err(|error| error.to_string())
}

/// The value over several lines.
pub fn pretty(value: &Json) -> (r: std::result::Result<String, String>)
    ensures
        rendering_view(r) == pretty_json(compact(value@)),
{
    laid_out_json(compact_text(value).as_str())
}

/// The text of a file: what was rendered and a trailing newline, or why it could
/// not be.
pub open spec fn file_text(
    name: Seq<char>,
    rendering: std::result::Result<Seq<char>, Seq<char>>,
) -> std::result::Result<Seq<char>, ErrorView> {
    match rendering {
        Ok(text) => Ok(text + "\n"@),
        Err(why) => Err(ErrorView::Malformed("cannot render "@ + name + ": "@ + why)),
    }
}

/// Ends the text of a file with a newline, or reports why there is none.
pub fn finished_file(name: &str, rendering: std::result::Result<String, String>) -> (r: Result<
    String,
>)
    ensures
        agrees_in_view(r, file_text(name@, rendering_view(rendering))),
{
    match rendering {
        Ok(text) => {
            let mut whole: String = text;
            whole.append("\n");
            Ok(whole)
        },
        Err(why) => {
            let mut message = "cannot render ".to_owned();
            message.append(name);
            message.append(": ");
            message.append(why.as_str());
            Err(Error::malformed(message))
        },
    }
}

/// The value as JSON text without white space.
pub open spec fn compact(value: JsonView) -> Seq<char>
    decreases value,
{
    match value {
        JsonView::Null => "null"@,
        JsonView::Bool(b) => if b {
            "true"@
        } else {
            "false"@
        },
        JsonView::Integer(n) => decimal(n as int),
        JsonView::Number(text) => text,
        JsonView::Text(text) => quoted(text),
        JsonView::List(items) => "["@ + compact_items(items) + "]"@,
        JsonView::Object(members) => "{"@ + compact_members(members) + "}"@,
    }
}

pub open spec fn compact_items(items: Seq<JsonView>) -> Seq<char>
    decreases items,
{
    if items.len() == 0 {
        ""@
    } else {
        let before = items.drop_last();
        compact_items(before) + (if before.len() == 0 {
            ""@
        } else {
            ","@
        }) + compact(items.last())
    }
}

pub open spec fn compact_members(members: MembersView) -> Seq<char>
    decreases members,
{
    if members.len() == 0 {
        ""@
    } else {
        let before = members.drop_last();
        compact_members(before) + (if before.len() == 0 {
            ""@
        } else {
            ","@
        }) + quoted(members.last().0) + ":"@ + compact(members.last().1)
    }
}

/// The place of the first member of this name.
pub open spec fn place_from(members: MembersView, key: Seq<char>, k: int) -> Option<int>
    decreases members.len() - k,
{
    if k < 0 || k >= members.len() {
        None
    } else if members[k].0 == key {
        Some(k)
    } else {
        place_from(members, key, k + 1)
    }
}

/// The place of a member.
pub open spec fn place(members: MembersView, key: Seq<char>) -> Option<int> {
    place_from(members, key, 0)
}

/// The value of a member.
pub open spec fn member(members: MembersView, key: Seq<char>) -> Option<JsonView> {
    match place(members, key) {
        Some(i) => Some(members[i].1),
        None => None,
    }
}

/// The members with one of them set: in its place where there is one of that
/// name, else at the end.
pub open spec fn with_member(members: MembersView, key: Seq<char>, value: JsonView) -> MembersView {
    match place(members, key) {
        Some(i) => members.update(i, (key, value)),
        None => members.push((key, value)),
    }
}

/// No two members share a key, as in any JSON object.
pub open spec fn distinct(members: MembersView) -> bool {
    forall|i: int, j: int|
        0 <= i < j < members.len() ==> (#[trigger] members[i]).0 != (#[trigger] members[j]).0
}

pub proof fn lemma_place(members: MembersView, key: Seq<char>, k: int)
    requires
        0 <= k,
    ensures
        match place_from(members, key, k) {
            Some(i) => k <= i < members.len() && members[i].0 == key && forall|j: int|
                k <= j < i ==> (#[trigger] members[j]).0 != key,
            None => forall|j: int| k <= j < members.len() ==> (#[trigger] members[j]).0 != key,
        },
    decreases members.len() - k,
{
    if k < members.len() && members[k].0 != key {
        lemma_place(members, key, k + 1);
    }
}

/// Where no two keys are the same, a member is found wherever it stands.
pub proof fn lemma_found(members: MembersView, i: int)
    requires
        distinct(members),
        0 <= i < members.len(),
    ensures
        place(members, members[i].0) == Some(i),
{
    lemma_place(members, members[i].0, 0);
    if let Some(j) = place(members, members[i].0) {
        if j < i {
            assert(members[j].0 != members[i].0);
        }
        if i < j {
            assert(members[i].0 != members[j].0);
        }
    }
}

/// What was set is what is read, and setting one member leaves the others alone.
pub proof fn setting_a_member(
    members: MembersView,
    key: Seq<char>,
    value: JsonView,
    other: Seq<char>,
)
    ensures
        member(with_member(members, key, value), key) == Some(value),
        other != key ==> member(with_member(members, key, value), other) == member(members, other),
{
    let after = with_member(members, key, value);
    lemma_place(members, key, 0);
    lemma_place(after, key, 0);
    lemma_place(members, other, 0);
    lemma_place(after, other, 0);
    if let Some(i) = place(members, key) {
        assert(after[i].0 == key);
        if let Some(j) = place(after, key) {
            assert(members[j].0 == after[j].0);
        }
    } else {
        assert(after[members.len() as int].0 == key);
        if let Some(j) = place(after, key) {
            if j < members.len() {
                assert(members[j].0 == after[j].0);
            }
        }
    }
    if other != key {
        match (place(members, other), place(after, other)) {
            (Some(i), Some(j)) => {
                assert(after[i].0 == other);
                assert(members[j].0 == other);
            },
            (Some(i), None) => {
                assert(after[i].0 == other);
            },
            (None, Some(j)) => {
                assert(j < members.len());
                assert(members[j].0 == other);
            },
            (None, None) => {},
        }
    }
}

/// The view of an optional reference to a value.
pub open spec fn found_value(value: Option<&Json>) -> Option<JsonView> {
    match value {
        Some(value) => Some(value@),
        None => None,
    }
}

/// The value of a member.
pub fn get<'a>(members: &'a Vec<(String, Json)>, key: &str) -> (r: Option<&'a Json>)
    ensures
        found_value(r) == member(member_views(members@), key@),
{
    proof {
        lemma_member_views(members@);
    }
    let mut k: usize = 0;
    while k < members.len()
        invariant
            k <= members@.len(),
            member_views(members@).len() == members@.len(),
            forall|i: int|
                0 <= i < members@.len() ==> #[trigger] member_views(members@)[i] == (
                    members@[i].0@,
                    json_view(members@[i].1),
                ),
            place_from(member_views(members@), key@, k as int) == place(
                member_views(members@),
                key@,
            ),
        decreases members@.len() - k,
    {
        let entry = &members[k];
        assert(member_views(members@)[k as int] == (entry.0@, json_view(entry.1)));
        if same_text(entry.0.as_str(), key) {
            return Some(&entry.1);
        }
        k += 1;
    }
    None
}

/// Appends a member.
pub fn put(members: &mut Vec<(String, Json)>, key: &str, value: Json)
    ensures
        member_views(final(members)@) == member_views(old(members)@).push((key@, value@)),
        final(members)@.len() == old(members)@.len() + 1,
{
    let ghost before = members@;
    members.push((key.to_owned(), value));
    assert(members@.drop_last() =~= before);
}

/// Sets a member: in its place where there is one of that name, else at the end.
pub fn set_member(members: &mut Vec<(String, Json)>, key: &str, value: Json)
    ensures
        member_views(final(members)@) == with_member(member_views(old(members)@), key@, value@),
{
    proof {
        lemma_member_views(members@);
    }
    let ghost before = members@;
    let ghost all = member_views(before);
    let count: usize = members.len();
    let mut k: usize = 0;
    while k < count
        invariant
            k <= count == members@.len(),
            members@ == before,
            before == old(members)@,
            all == member_views(before),
            all.len() == before.len(),
            forall|i: int|
                0 <= i < before.len() ==> #[trigger] all[i] == (
                    before[i].0@,
                    json_view(before[i].1),
                ),
            place_from(all, key@, k as int) == place(all, key@),
        decreases count - k,
    {
        assert(all[k as int] == (before[k as int].0@, json_view(before[k as int].1)));
        if same_text(members[k].0.as_str(), key) {
            members.set(k, (key.to_owned(), value));
            proof {
                lemma_member_views(members@);
                assert(member_views(members@) =~= with_member(all, key@, value@));
            }
            return;
        }
        k += 1;
    }
    put(members, key, value);
}

/// Whether two values say the same. The members of an object are compared by
/// key, whatever their order.
pub open spec fn same_value(a: JsonView, b: JsonView) -> bool
    decreases a,
{
    match (a, b) {
        (JsonView::List(x), JsonView::List(y)) => x.len() == y.len() && forall|i: int|
            0 <= i < x.len() ==> same_value(#[trigger] x[i], y[i]),
        (JsonView::Object(m), JsonView::Object(n)) => forall|key: Seq<char>|
            match (#[trigger] place(m, key), place(n, key)) {
                (Some(i), Some(j)) => if 0 <= i < m.len() && 0 <= j < n.len() {
                    same_value(m[i].1, n[j].1)
                } else {
                    false
                },
                (None, None) => true,
                _ => false,
            },
        (JsonView::Number(x), JsonView::Number(y)) => same_number(x, y),
        _ => a == b,
    }
}

/// Whether two numbers are the same: there are two ways to write zero.
pub open spec fn same_number(a: Seq<char>, b: Seq<char>) -> bool {
    a == b || (is_zero(a) && is_zero(b))
}

pub open spec fn is_zero(text: Seq<char>) -> bool {
    text == "0.0"@ || text == "-0.0"@
}

/// Whether two objects say the same for a key.
pub open spec fn same_member(m: MembersView, n: MembersView, key: Seq<char>) -> bool {
    match (place(m, key), place(n, key)) {
        (Some(i), Some(j)) => same_value(m[i].1, n[j].1),
        (None, None) => true,
        _ => false,
    }
}

/// Two objects say the same if and only if they do for every key.
pub proof fn lemma_same_members(m: MembersView, n: MembersView)
    ensures
        same_value(JsonView::Object(m), JsonView::Object(n)) == (forall|key: Seq<char>|
            #[trigger] same_member(m, n, key)),
{
    let a = JsonView::Object(m);
    let b = JsonView::Object(n);
    if same_value(a, b) {
        assert forall|key: Seq<char>| #[trigger] same_member(m, n, key) by {
            lemma_place(m, key, 0);
            lemma_place(n, key, 0);
            let i = place(m, key);
        }
    }
    if forall|key: Seq<char>| #[trigger] same_member(m, n, key) {
        assert forall|key: Seq<char>|
            match (#[trigger] place(m, key), place(n, key)) {
                (Some(i), Some(j)) => if 0 <= i < m.len() && 0 <= j < n.len() {
                    same_value(m[i].1, n[j].1)
                } else {
                    false
                },
                (None, None) => true,
                _ => false,
            } by {
            lemma_place(m, key, 0);
            lemma_place(n, key, 0);
            assert(same_member(m, n, key));
        }
    }
}

/// A value says the same as itself.
pub proof fn lemma_same_as_itself(a: JsonView)
    ensures
        same_value(a, a),
    decreases a,
{
    match a {
        JsonView::List(x) => {
            assert forall|i: int| 0 <= i < x.len() implies same_value(#[trigger] x[i], x[i]) by {
                lemma_same_as_itself(x[i]);
            }
        },
        JsonView::Object(m) => {
            assert forall|key: Seq<char>| #[trigger] same_member(m, m, key) by {
                lemma_place(m, key, 0);
                if let Some(i) = place(m, key) {
                    lemma_same_as_itself(m[i].1);
                }
            }
            lemma_same_members(m, m);
        },
        _ => {},
    }
}

/// Saying the same goes both ways.
pub proof fn lemma_same_both_ways(a: JsonView, b: JsonView)
    ensures
        same_value(a, b) == same_value(b, a),
    decreases a,
{
    match (a, b) {
        (JsonView::List(x), JsonView::List(y)) => {
            assert forall|i: int| 0 <= i < x.len() && x.len() == y.len() implies same_value(
                #[trigger] x[i],
                y[i],
            ) == same_value(y[i], x[i]) by {
                lemma_same_both_ways(x[i], y[i]);
            }
            if same_value(a, b) {
                assert forall|i: int| 0 <= i < y.len() implies same_value(
                    #[trigger] y[i],
                    x[i],
                ) by {
                    assert(same_value(x[i], y[i]));
                }
            }
            if same_value(b, a) {
                assert forall|i: int| 0 <= i < x.len() implies same_value(
                    #[trigger] x[i],
                    y[i],
                ) by {
                    assert(same_value(y[i], x[i]));
                }
            }
        },
        (JsonView::Object(m), JsonView::Object(n)) => {
            lemma_same_members(m, n);
            lemma_same_members(n, m);
            assert forall|key: Seq<char>| #[trigger] same_member(m, n, key) == same_member(
                n,
                m,
                key,
            ) by {
                lemma_place(m, key, 0);
                lemma_place(n, key, 0);
                if let (Some(i), Some(j)) = (place(m, key), place(n, key)) {
                    lemma_same_both_ways(m[i].1, n[j].1);
                }
            }
            if same_value(b, a) {
                assert forall|key: Seq<char>| #[trigger] same_member(m, n, key) by {
                    assert(same_member(n, m, key));
                }
            }
            if same_value(a, b) {
                assert forall|key: Seq<char>| #[trigger] same_member(n, m, key) by {
                    assert(same_member(m, n, key));
                }
            }
        },
        _ => {},
    }
}

/// The place of a member.
pub fn find(members: &Vec<(String, Json)>, key: &str) -> (r: Option<usize>)
    ensures
        match r {
            Some(i) => i < members@.len() && place(member_views(members@), key@) == Some(i as int)
                && member_views(members@)[i as int].1 == json_view(members@[i as int].1),
            None => place(member_views(members@), key@) is None,
        },
{
    let ghost all = member_views(members@);
    proof {
        lemma_member_views(members@);
    }
    let mut k: usize = 0;
    while k < members.len()
        invariant
            k <= members@.len(),
            all == member_views(members@),
            all.len() == members@.len(),
            forall|j: int|
                0 <= j < members@.len() ==> #[trigger] all[j] == (
                    members@[j].0@,
                    json_view(members@[j].1),
                ),
            place_from(all, key@, k as int) == place(all, key@),
        decreases members@.len() - k,
    {
        assert(all[k as int] == (members@[k as int].0@, json_view(members@[k as int].1)));
        if same_text(members[k].0.as_str(), key) {
            return Some(k);
        }
        k += 1;
    }
    None
}

fn zero(text: &str) -> (r: bool)
    ensures
        r == is_zero(text@),
{
    same_text(text, "0.0") || same_text(text, "-0.0")
}

/// Whether two values say the same. The members of an object are compared by
/// key, whatever their order.
pub fn same(a: &Json, b: &Json) -> (r: bool)
    ensures
        r == same_value(a@, b@),
    decreases *a,
{
    match (a, b) {
        (Json::Null, Json::Null) => true,
        (Json::Bool(x), Json::Bool(y)) => *x == *y,
        (Json::Integer(x), Json::Integer(y)) => *x == *y,
        (Json::Number(x), Json::Number(y)) => same_text(x.as_str(), y.as_str()) || (zero(
            x.as_str(),
        ) && zero(y.as_str())),
        (Json::Text(x), Json::Text(y)) => same_text(x.as_str(), y.as_str()),
        (Json::List(x), Json::List(y)) => {
            let ghost xs = item_views(x@);
            let ghost ys = item_views(y@);
            proof {
                lemma_item_views(x@);
                lemma_item_views(y@);
            }
            if x.len() != y.len() {
                return false;
            }
            let mut i: usize = 0;
            while i < x.len()
                invariant
                    i <= x@.len() == y@.len(),
                    *a == Json::List(*x),
                    a@ == JsonView::List(xs),
                    b@ == JsonView::List(ys),
                    xs.len() == x@.len(),
                    ys.len() == y@.len(),
                    forall|j: int| 0 <= j < x@.len() ==> #[trigger] xs[j] == json_view(x@[j]),
                    forall|j: int| 0 <= j < y@.len() ==> #[trigger] ys[j] == json_view(y@[j]),
                    forall|j: int| 0 <= j < i ==> same_value(#[trigger] xs[j], ys[j]),
                decreases x@.len() - i,
            {
                assert(decreases_to!(*a => a->List_0));
                assert(decreases_to!(*x => x[i as int]));
                assert(xs[i as int] == json_view(x@[i as int]));
                assert(ys[i as int] == json_view(y@[i as int]));
                if !same(&x[i], &y[i]) {
                    assert(!same_value(xs[i as int], ys[i as int]));
                    return false;
                }
                i += 1;
            }
            true
        },
        (Json::Object(x), Json::Object(y)) => {
            let ghost m = member_views(x@);
            let ghost n = member_views(y@);
            proof {
                lemma_member_views(x@);
                lemma_member_views(y@);
                lemma_same_members(m, n);
            }
            let mut i: usize = 0;
            while i < x.len()
                invariant
                    i <= x@.len(),
                    same_value(a@, b@) == (forall|key: Seq<char>| #[trigger] same_member(m, n, key)),
                    *a == Json::Object(*x),
                    a@ == JsonView::Object(m),
                    b@ == JsonView::Object(n),
                    m == member_views(x@),
                    n == member_views(y@),
                    m.len() == x@.len(),
                    forall|j: int|
                        0 <= j < x@.len() ==> #[trigger] m[j] == (x@[j].0@, json_view(x@[j].1)),
                    forall|j: int| 0 <= j < i ==> same_member(m, n, (#[trigger] m[j]).0),
                decreases x@.len() - i,
            {
                let key = x[i].0.as_str();
                assert(m[i as int].0 == key@);
                let here: Option<usize> = find(x, key);
                let there: Option<usize> = find(y, key);
                proof {
                    lemma_place(m, key@, 0);
                    lemma_place(n, key@, 0);
                }
                let agrees = match (here, there) {
                    (Some(k), Some(l)) => {
                        assert(decreases_to!(*a => a->Object_0));
                        assert(decreases_to!(*x => x[k as int]));
                        same(&x[k].1, &y[l].1)
                    },
                    _ => false,
                };
                assert(agrees == same_member(m, n, key@));
                if !agrees {
                    return false;
                }
                i += 1;
            }
            let mut j: usize = 0;
            while j < y.len()
                invariant
                    j <= y@.len(),
                    same_value(a@, b@) == (forall|key: Seq<char>| #[trigger] same_member(m, n, key)),
                    a@ == JsonView::Object(m),
                    b@ == JsonView::Object(n),
                    m == member_views(x@),
                    n == member_views(y@),
                    n.len() == y@.len(),
                    forall|l: int|
                        0 <= l < y@.len() ==> #[trigger] n[l] == (y@[l].0@, json_view(y@[l].1)),
                    forall|l: int| 0 <= l < j ==> place(m, (#[trigger] n[l]).0) is Some,
                decreases y@.len() - j,
            {
                let key = y[j].0.as_str();
                assert(n[j as int].0 == key@);
                if find(x, key).is_none() {
                    proof {
                        lemma_place(n, key@, 0);
                    }
                    assert(!same_member(m, n, key@));
                    return false;
                }
                j += 1;
            }
            assert forall|key: Seq<char>| #[trigger] same_member(m, n, key) by {
                lemma_place(m, key, 0);
                lemma_place(n, key, 0);
                if let Some(k) = place(m, key) {
                    assert(same_member(m, n, m[k].0));
                } else if let Some(l) = place(n, key) {
                    assert(place(m, n[l].0) is Some);
                }
            }
            true
        },
        _ => false,
    }
}

/// A value that says the same.
pub fn copy(value: &Json) -> (r: Json)
    ensures
        r@ == value@,
    decreases *value,
{
    match value {
        Json::Null => Json::Null,
        Json::Bool(b) => Json::Bool(*b),
        Json::Integer(n) => Json::Integer(*n),
        Json::Number(text) => Json::Number(text.clone()),
        Json::Text(text) => Json::Text(text.clone()),
        Json::List(items) => {
            let mut out: Vec<Json> = Vec::new();
            let mut i: usize = 0;
            while i < items.len()
                invariant
                    i <= items@.len(),
                    *value == Json::List(*items),
                    item_views(out@) == item_views(items@.take(i as int)),
                decreases items@.len() - i,
            {
                let ghost before = out@;
                assert(decreases_to!(*value => value->List_0));
                assert(decreases_to!(*items => items[i as int]));
                let item: Json = copy(&items[i]);
                out.push(item);
                assert(out@.drop_last() =~= before);
                assert(items@.take(i + 1).drop_last() =~= items@.take(i as int));
                i += 1;
            }
            assert(items@.take(items@.len() as int) =~= items@);
            Json::List(out)
        },
        Json::Object(members) => {
            let mut out: Vec<(String, Json)> = Vec::new();
            let mut i: usize = 0;
            while i < members.len()
                invariant
                    i <= members@.len(),
                    *value == Json::Object(*members),
                    member_views(out@) == member_views(members@.take(i as int)),
                decreases members@.len() - i,
            {
                assert(decreases_to!(*value => value->Object_0));
                assert(decreases_to!(*members => members[i as int]));
                let item: Json = copy(&members[i].1);
                put(&mut out, members[i].0.as_str(), item);
                assert(members@.take(i + 1).drop_last() =~= members@.take(i as int));
                i += 1;
            }
            assert(members@.take(members@.len() as int) =~= members@);
            Json::Object(out)
        },
    }
}

/// The value as JSON text without white space.
pub fn compact_text(value: &Json) -> (r: String)
    ensures
        r@ == compact(value@),
    decreases *value,
{
    match value {
        Json::Null => "null".to_owned(),
        Json::Bool(b) => if *b {
            "true".to_owned()
        } else {
            "false".to_owned()
        },
        Json::Integer(n) => decimal_text(*n as i128),
        Json::Number(text) => text.clone(),
        Json::Text(text) => json_string(text.as_str()),
        Json::List(items) => {
            let mut out = "".to_owned();
            let mut i: usize = 0;
            while i < items.len()
                invariant
                    i <= items@.len(),
                    *value == Json::List(*items),
                    out@ == compact_items(item_views(items@.take(i as int))),
                decreases items@.len() - i,
            {
                proof {
                    lemma_item_views(items@.take(i as int));
                    lemma_item_views(items@.take(i + 1));
                }
                assert(items@.take(i + 1).drop_last() =~= items@.take(i as int));
                assert(item_views(items@.take(i + 1)).drop_last() =~= item_views(
                    items@.take(i as int),
                ));
                if i == 0 {
                    out.append("");
                } else {
                    out.append(",");
                }
                assert(decreases_to!(*value => value->List_0));
                assert(decreases_to!(*items => items[i as int]));
                out.append(compact_text(&items[i]).as_str());
                i += 1;
            }
            assert(items@.take(items@.len() as int) =~= items@);
            let mut text = "[".to_owned();
            text.append(out.as_str());
            text.append("]");
            text
        },
        Json::Object(members) => {
            let mut out = "".to_owned();
            let mut i: usize = 0;
            while i < members.len()
                invariant
                    i <= members@.len(),
                    *value == Json::Object(*members),
                    out@ == compact_members(member_views(members@.take(i as int))),
                decreases members@.len() - i,
            {
                proof {
                    lemma_member_views(members@.take(i as int));
                    lemma_member_views(members@.take(i + 1));
                }
                assert(members@.take(i + 1).drop_last() =~= members@.take(i as int));
                assert(member_views(members@.take(i + 1)).drop_last() =~= member_views(
                    members@.take(i as int),
                ));
                if i == 0 {
                    out.append("");
                } else {
                    out.append(",");
                }
                out.append(json_string(members[i].0.as_str()).as_str());
                out.append(":");
                assert(decreases_to!(*value => value->Object_0));
                assert(decreases_to!(*members => members[i as int]));
                out.append(compact_text(&members[i].1).as_str());
                i += 1;
            }
            assert(members@.take(members@.len() as int) =~= members@);
            let mut text = "{".to_owned();
            text.append(out.as_str());
            text.append("}");
            text
        },
    }
}

/// An array is written as its items with commas between them, in brackets; an
/// object as its keys and values, in braces; nothing is left out.
pub proof fn nothing_is_left_out_of_the_text(
    items: Seq<JsonView>,
    members: MembersView,
    key: Seq<char>,
    value: JsonView,
    inner: Seq<char>,
)
    ensures
        compact(JsonView::List(Seq::empty())) == "["@ + ""@ + "]"@,
        compact(JsonView::Object(Seq::empty())) == "{"@ + ""@ + "}"@,
        compact(JsonView::List(items)) == "["@ + inner + "]"@ ==> compact(
            JsonView::List(items.push(value)),
        ) == "["@ + (inner + (if items.len() == 0 {
            ""@
        } else {
            ","@
        }) + compact(value)) + "]"@,
        compact(JsonView::Object(members)) == "{"@ + inner + "}"@ ==> compact(
            JsonView::Object(members.push((key, value))),
        ) == "{"@ + (inner + (if members.len() == 0 {
            ""@
        } else {
            ","@
        }) + quoted(key) + ":"@ + compact(value)) + "}"@,
        compact(JsonView::Text(key)) == quoted(key),
        compact(JsonView::Number(key)) == key,
        compact(JsonView::Null) == "null"@,
        compact(JsonView::Bool(true)) == "true"@,
        compact(JsonView::Bool(false)) == "false"@,
{
    assert(items.push(value).drop_last() =~= items);
    assert(members.push((key, value)).drop_last() =~= members);
    assert(compact_items(Seq::empty()) == ""@);
    assert(compact_members(Seq::empty()) == ""@);
    assert(compact_items(items.push(value)) == compact_items(items) + (if items.len() == 0 {
        ""@
    } else {
        ","@
    }) + compact(value));
    assert(compact_members(members.push((key, value))) == compact_members(members) + (
    if members.len() == 0 {
        ""@
    } else {
        ","@
    }) + quoted(key) + ":"@ + compact(value));
    if compact(JsonView::List(items)) == "["@ + inner + "]"@ {
        lemma_between("["@, compact_items(items), inner, "]"@);
    }
    if compact(JsonView::Object(members)) == "{"@ + inner + "}"@ {
        lemma_between("{"@, compact_members(members), inner, "}"@);
    }
}

proof fn lemma_between(open: Seq<char>, a: Seq<char>, b: Seq<char>, close: Seq<char>)
    requires
        open + a + close == open + b + close,
    ensures
        a == b,
{
    let x = open + a + close;
    assert(x.len() == open.len() + a.len() + close.len());
    assert(a.len() == b.len());
    assert forall|i: int| 0 <= i < a.len() implies a[i] == b[i] by {
        assert(x[open.len() + i] == a[i]);
        assert((open + b + close)[open.len() + i] == b[i]);
    }
    assert(a =~= b);
}

} // verus!
