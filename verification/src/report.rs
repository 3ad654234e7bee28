//! What changed, and where every number came from.
//!
//! A generator that only writes a file leaves everybody else to eyeball 300 lines
//! of numbers. The diff below is the practical regression check: after a game
//! update the interesting output is not the file, it is the four fields that
//! moved.

use vstd::prelude::*;
use vstd::utf8::encode_utf8;

use crate::generate::{provenance_views, Provenance, ProvenanceView};
use crate::json::{
    compact, compact_text, find, get, json_view, lemma_member_views, lemma_place,
    lemma_same_as_itself, lemma_same_both_ways, lemma_same_members, member, member_views, place,
    quoted, same, same_member, same_value, Json, JsonView, MembersView,
};
use crate::numbers::{decimal, decimal_text};
use crate::offsets::Offsets;
use crate::text::{chars_of, part_views, split_words, words};
use crate::validate::member_path;

verus! {

/// One field whose value differs between two offsets files.
#[derive(Debug, Clone, PartialEq, Eq)]
pub struct Difference {
    pub path: String,
    pub before: String,
    pub after: String,
}

/// What a [`Difference`] says.
pub struct DifferenceView {
    pub path: Seq<char>,
    pub before: Seq<char>,
    pub after: Seq<char>,
}

impl View for Difference {
    type V = DifferenceView;

    open spec fn view(&self) -> DifferenceView {
        DifferenceView { path: self.path@, before: self.before@, after: self.after@ }
    }
}

pub open spec fn difference_views(all: Seq<Difference>) -> Seq<DifferenceView> {
    all.map_values(|d: Difference| d@)
}

/// How a value is shown. A pattern of more than a few bytes is not spelled out:
/// a 60-byte pattern on a diff line helps nobody.
pub open spec fn shown(value: JsonView) -> Seq<char> {
    match value {
        JsonView::Text(text) => if encode_utf8(text).len() > 24 {
            "<"@ + decimal(words(text).len() as int) + " byte pattern>"@
        } else {
            compact(value)
        },
        _ => compact(value),
    }
}

/// Whether one text comes before another by the order of their characters.
pub open spec fn precedes(a: Seq<char>, b: Seq<char>) -> bool
    decreases a.len(),
{
    if b.len() == 0 {
        false
    } else if a.len() == 0 {
        true
    } else if a[0] != b[0] {
        a[0] < b[0]
    } else {
        precedes(a.skip(1), b.skip(1))
    }
}

/// `key` put in its place in a sorted row, unless it is there.
pub open spec fn with_key(row: Seq<Seq<char>>, key: Seq<char>) -> Seq<Seq<char>>
    decreases row.len(),
{
    if row.len() == 0 {
        row.push(key)
    } else if row.last() == key {
        row
    } else if precedes(key, row.last()) {
        with_key(row.drop_last(), key).push(row.last())
    } else {
        row.push(key)
    }
}

/// The keys of these members put into a sorted row.
pub open spec fn with_keys(row: Seq<Seq<char>>, members: MembersView) -> Seq<Seq<char>>
    decreases members.len(),
{
    if members.len() == 0 {
        row
    } else {
        with_key(with_keys(row, members.drop_last()), members.last().0)
    }
}

/// The keys of both objects, sorted, each of them once.
pub open spec fn all_keys(a: MembersView, b: MembersView) -> Seq<Seq<char>> {
    with_keys(with_keys(Seq::empty(), a), b)
}

/// Where two values differ. Objects are compared by key, whatever the order of
/// their members. An array that differs is one difference: a chain
/// that gained a hop is one change, not four.
pub open spec fn differences(before: JsonView, after: JsonView, path: Seq<char>) -> Seq<
    DifferenceView,
>
    decreases before, 0nat,
{
    match (before, after) {
        (JsonView::Object(a), JsonView::Object(b)) => key_differences(
            a,
            b,
            path,
            all_keys(a, b),
            all_keys(a, b).len(),
        ),
        _ => if same_value(before, after) {
            Seq::empty()
        } else {
            Seq::empty().push(
                DifferenceView { path, before: shown(before), after: shown(after) },
            )
        },
    }
}

/// Where two objects differ in the first `n` of these keys.
pub open spec fn key_differences(
    a: MembersView,
    b: MembersView,
    path: Seq<char>,
    keys: Seq<Seq<char>>,
    n: nat,
) -> Seq<DifferenceView>
    decreases a, n,
{
    if n == 0 || n > keys.len() {
        Seq::empty()
    } else {
        let earlier = key_differences(a, b, path, keys, (n - 1) as nat);
        let key = keys[n - 1];
        let child = member_path(path, key);
        match (place(a, key), place(b, key)) {
            (Some(i), Some(j)) => if 0 <= i < a.len() && 0 <= j < b.len() {
                earlier + differences(a[i].1, b[j].1, child)
            } else {
                earlier
            },
            (Some(i), None) => earlier.push(
                DifferenceView { path: child, before: shown(a[i].1), after: "(removed)"@ },
            ),
            (None, Some(j)) => earlier.push(
                DifferenceView { path: child, before: "(absent)"@, after: shown(b[j].1) },
            ),
            (None, None) => earlier,
        }
    }
}

proof fn lemma_no_key_differences(a: MembersView, path: Seq<char>, keys: Seq<Seq<char>>, n: nat)
    ensures
        key_differences(a, a, path, keys, n).len() == 0,
    decreases a, n,
{
    if 0 < n <= keys.len() {
        lemma_no_key_differences(a, path, keys, (n - 1) as nat);
        let key = keys[n - 1];
        lemma_place(a, key, 0);
        if let Some(i) = place(a, key) {
            a_value_does_not_differ_from_itself(a[i].1, member_path(path, key));
        }
    }
}

/// Identical files produce nothing.
pub proof fn a_value_does_not_differ_from_itself(value: JsonView, path: Seq<char>)
    ensures
        differences(value, value, path).len() == 0,
    decreases value, 0nat,
{
    lemma_same_as_itself(value);
    if let JsonView::Object(a) = value {
        lemma_no_key_differences(a, path, all_keys(a, a), all_keys(a, a).len());
    }
}

pub proof fn lemma_precedes_not_itself(a: Seq<char>)
    ensures
        !precedes(a, a),
    decreases a.len(),
{
    if a.len() > 0 {
        lemma_precedes_not_itself(a.skip(1));
    }
}

/// Of two different texts one comes before the other.
pub proof fn lemma_precedes_either_way(a: Seq<char>, b: Seq<char>)
    ensures
        a == b || precedes(a, b) || precedes(b, a),
    decreases a.len(),
{
    if a.len() > 0 && b.len() > 0 && a[0] == b[0] {
        lemma_precedes_either_way(a.skip(1), b.skip(1));
        if a.skip(1) == b.skip(1) {
            assert(a =~= seq![a[0]] + a.skip(1));
            assert(b =~= seq![b[0]] + b.skip(1));
        }
    } else if a.len() == 0 && b.len() == 0 {
        assert(a =~= b);
    }
}

pub proof fn lemma_precedes_onwards(a: Seq<char>, b: Seq<char>, c: Seq<char>)
    requires
        precedes(a, b),
        precedes(b, c),
    ensures
        precedes(a, c),
    decreases a.len(),
{
    if a.len() > 0 && b.len() > 0 && c.len() > 0 && a[0] == b[0] && b[0] == c[0] {
        lemma_precedes_onwards(a.skip(1), b.skip(1), c.skip(1));
    }
}

/// Each text of a row comes before the ones behind it.
pub open spec fn ascending(row: Seq<Seq<char>>) -> bool {
    forall|i: int, j: int|
        0 <= i < j < row.len() ==> precedes(#[trigger] row[i], #[trigger] row[j])
}

proof fn lemma_with_key(row: Seq<Seq<char>>, key: Seq<char>)
    requires
        ascending(row),
    ensures
        ascending(with_key(row, key)),
        forall|k: Seq<char>|
            #[trigger] with_key(row, key).contains(k) <==> row.contains(k) || k == key,
    decreases row.len(),
{
    let after = with_key(row, key);
    if row.len() == 0 {
        assert(after[0] == key);
    } else if row.last() == key {
        assert(row[row.len() - 1] == key);
    } else if precedes(key, row.last()) {
        let shorter = row.drop_last();
        let inner = with_key(shorter, key);
        assert forall|i: int, j: int| 0 <= i < j < shorter.len() implies precedes(
            #[trigger] shorter[i],
            #[trigger] shorter[j],
        ) by {
            assert(precedes(row[i], row[j]));
        }
        lemma_with_key(shorter, key);
        assert forall|k: Seq<char>| #[trigger] after.contains(k) <==> row.contains(k) || k
            == key by {
            if after.contains(k) {
                let i = choose|i: int| 0 <= i < after.len() && after[i] == k;
                if i < inner.len() {
                    assert(inner[i] == k);
                    assert(inner.contains(k));
                    if shorter.contains(k) {
                        let j = choose|j: int| 0 <= j < shorter.len() && shorter[j] == k;
                        assert(row[j] == k);
                    }
                } else {
                    assert(row[row.len() - 1] == k);
                }
            }
            if row.contains(k) || k == key {
                if k == key || shorter.contains(k) {
                    assert(inner.contains(k));
                    let i = choose|i: int| 0 <= i < inner.len() && inner[i] == k;
                    assert(after[i] == k);
                } else {
                    let j = choose|j: int| 0 <= j < row.len() && row[j] == k;
                    if j < shorter.len() {
                        assert(shorter[j] == k);
                    }
                    assert(after[after.len() - 1] == k);
                }
            }
        }
        assert forall|i: int, j: int| 0 <= i < j < after.len() implies precedes(
            #[trigger] after[i],
            #[trigger] after[j],
        ) by {
            if j < inner.len() {
                assert(precedes(inner[i], inner[j]));
            } else {
                assert(inner.contains(inner[i]));
                if inner[i] != key {
                    let n = choose|n: int| 0 <= n < shorter.len() && shorter[n] == inner[i];
                    assert(precedes(row[n], row[row.len() - 1]));
                }
            }
        }
    } else {
        lemma_precedes_either_way(key, row.last());
        assert(after[row.len() as int] == key);
        assert forall|k: Seq<char>| #[trigger] after.contains(k) <==> row.contains(k) || k
            == key by {
            if row.contains(k) {
                let j = choose|j: int| 0 <= j < row.len() && row[j] == k;
                assert(after[j] == k);
            }
            if after.contains(k) {
                let i = choose|i: int| 0 <= i < after.len() && after[i] == k;
                if i < row.len() {
                    assert(row[i] == k);
                }
            }
        }
        assert forall|i: int, j: int| 0 <= i < j < after.len() implies precedes(
            #[trigger] after[i],
            #[trigger] after[j],
        ) by {
            if j < row.len() {
                assert(precedes(row[i], row[j]));
            } else if i < row.len() - 1 {
                assert(precedes(row[i], row[row.len() - 1]));
                lemma_precedes_onwards(row[i], row.last(), key);
            }
        }
    }
}

proof fn lemma_with_keys(row: Seq<Seq<char>>, members: MembersView)
    requires
        ascending(row),
    ensures
        ascending(with_keys(row, members)),
        forall|k: Seq<char>|
            #[trigger] with_keys(row, members).contains(k) <==> row.contains(k) || place(members, k)
                is Some,
    decreases members.len(),
{
    if members.len() > 0 {
        let shorter = members.drop_last();
        lemma_with_keys(row, shorter);
        lemma_with_key(with_keys(row, shorter), members.last().0);
        assert forall|k: Seq<char>|
            #[trigger] with_keys(row, members).contains(k) <==> row.contains(k) || place(members, k)
                is Some by {
            assert(with_keys(row, shorter).contains(k) <==> row.contains(k) || place(shorter, k)
                is Some);
            lemma_place(members, k, 0);
            lemma_place(shorter, k, 0);
            if let Some(i) = place(shorter, k) {
                assert(members[i].0 == k);
            }
            if let Some(i) = place(members, k) {
                if i < shorter.len() {
                    assert(shorter[i].0 == k);
                }
            }
            assert(members[members.len() - 1].0 == members.last().0);
        }
    }
}

/// The keys of two objects are listed in ascending order, and are those that
/// one or the other has.
pub proof fn keys_are_listed_in_order(a: MembersView, b: MembersView)
    ensures
        ascending(all_keys(a, b)),
        forall|k: Seq<char>|
            #[trigger] all_keys(a, b).contains(k) <==> place(a, k) is Some || place(b, k) is Some,
{
    let none = Seq::<Seq<char>>::empty();
    lemma_with_keys(none, a);
    lemma_with_keys(with_keys(none, a), b);
    assert forall|k: Seq<char>| #[trigger] all_keys(a, b).contains(k) <==> place(a, k) is Some
        || place(b, k) is Some by {
        assert(with_keys(none, a).contains(k) <==> none.contains(k) || place(a, k) is Some);
    }
}

/// Two ascending rows of the same texts are one row.
proof fn lemma_one_row(x: Seq<Seq<char>>, y: Seq<Seq<char>>)
    requires
        ascending(x),
        ascending(y),
        forall|k: Seq<char>| #[trigger] x.contains(k) <==> y.contains(k),
    ensures
        x == y,
    decreases x.len(),
{
    if x.len() == 0 {
        if y.len() > 0 {
            assert(y.contains(y[0]));
            assert(x.contains(y[0]));
        }
        assert(x =~= y);
    } else {
        assert(x.contains(x[x.len() - 1]));
        assert(y.contains(x.last()));
        let j = choose|j: int| 0 <= j < y.len() && y[j] == x.last();
        assert(y.contains(y[y.len() - 1]));
        assert(x.contains(y.last()));
        let i = choose|i: int| 0 <= i < x.len() && x[i] == y.last();
        if x.last() != y.last() {
            assert(precedes(x[i], x[x.len() - 1]));
            assert(precedes(y[j], y[y.len() - 1]));
            lemma_precedes_onwards(x.last(), y.last(), x.last());
            lemma_precedes_not_itself(x.last());
        }
        let xs = x.drop_last();
        let ys = y.drop_last();
        assert forall|i: int, j: int| 0 <= i < j < xs.len() implies precedes(
            #[trigger] xs[i],
            #[trigger] xs[j],
        ) by {
            assert(precedes(x[i], x[j]));
        }
        assert forall|i: int, j: int| 0 <= i < j < ys.len() implies precedes(
            #[trigger] ys[i],
            #[trigger] ys[j],
        ) by {
            assert(precedes(y[i], y[j]));
        }
        assert forall|k: Seq<char>| #[trigger] xs.contains(k) <==> ys.contains(k) by {
            if xs.contains(k) {
                let n = choose|n: int| 0 <= n < xs.len() && xs[n] == k;
                assert(x[n] == k);
                assert(x.contains(k));
                assert(precedes(x[n], x[x.len() - 1]));
                lemma_precedes_not_itself(k);
                let m = choose|m: int| 0 <= m < y.len() && y[m] == k;
                assert(ys[m] == k);
            }
            if ys.contains(k) {
                let n = choose|n: int| 0 <= n < ys.len() && ys[n] == k;
                assert(y[n] == k);
                assert(y.contains(k));
                assert(x.contains(k));
                assert(precedes(y[n], y[y.len() - 1]));
                lemma_precedes_not_itself(k);
                let m = choose|m: int| 0 <= m < x.len() && x[m] == k;
                assert(xs[m] == k);
            }
        }
        lemma_one_row(xs, ys);
        assert(x =~= xs.push(x.last()));
        assert(y =~= ys.push(y.last()));
    }
}

proof fn lemma_keys_both_ways(a: MembersView, b: MembersView)
    ensures
        all_keys(a, b) == all_keys(b, a),
{
    keys_are_listed_in_order(a, b);
    keys_are_listed_in_order(b, a);
    assert forall|k: Seq<char>| #[trigger] all_keys(a, b).contains(k) <==> all_keys(
        b,
        a,
    ).contains(k) by {}
    lemma_one_row(all_keys(a, b), all_keys(b, a));
}

proof fn lemma_silent_keys(
    a: MembersView,
    b: MembersView,
    path: Seq<char>,
    keys: Seq<Seq<char>>,
    n: nat,
)
    requires
        n <= keys.len(),
    ensures
        key_differences(a, b, path, keys, n).len() == 0 <==> forall|i: int|
            0 <= i < n ==> same_member(a, b, #[trigger] keys[i]),
    decreases a, n,
{
    if n > 0 {
        lemma_silent_keys(a, b, path, keys, (n - 1) as nat);
        let key = keys[n - 1];
        lemma_place(a, key, 0);
        lemma_place(b, key, 0);
        if let (Some(i), Some(j)) = (place(a, key), place(b, key)) {
            only_equal_values_do_not_differ(a[i].1, b[j].1, member_path(path, key));
        }
        let all = key_differences(a, b, path, keys, n);
        let earlier = key_differences(a, b, path, keys, (n - 1) as nat);
        if all.len() == 0 {
            assert(earlier.len() == 0);
            assert(same_member(a, b, key));
        }
        if forall|i: int| 0 <= i < n ==> same_member(a, b, #[trigger] keys[i]) {
            assert(same_member(a, b, keys[n - 1]));
        }
    }
}

/// Nothing is reported of two values if and only if they say the same.
pub proof fn only_equal_values_do_not_differ(before: JsonView, after: JsonView, path: Seq<char>)
    ensures
        differences(before, after, path).len() == 0 <==> same_value(before, after),
    decreases before, 0nat,
{
    if let (JsonView::Object(a), JsonView::Object(b)) = (before, after) {
        let keys = all_keys(a, b);
        keys_are_listed_in_order(a, b);
        lemma_silent_keys(a, b, path, keys, keys.len());
        lemma_same_members(a, b);
        if forall|i: int| 0 <= i < keys.len() ==> same_member(a, b, #[trigger] keys[i]) {
            assert forall|key: Seq<char>| #[trigger] same_member(a, b, key) by {
                if keys.contains(key) {
                    let i = choose|i: int| 0 <= i < keys.len() && keys[i] == key;
                    assert(same_member(a, b, keys[i]));
                }
            }
        }
    }
}

/// The paths of these differences, in order.
pub open spec fn paths(all: Seq<DifferenceView>) -> Seq<Seq<char>> {
    all.map_values(|d: DifferenceView| d.path)
}

proof fn lemma_key_paths_both_ways(
    a: MembersView,
    b: MembersView,
    path: Seq<char>,
    keys: Seq<Seq<char>>,
    n: nat,
)
    ensures
        paths(key_differences(a, b, path, keys, n)) == paths(key_differences(b, a, path, keys, n)),
    decreases a, n,
{
    let here = key_differences(a, b, path, keys, n);
    let there = key_differences(b, a, path, keys, n);
    if 0 < n <= keys.len() {
        lemma_key_paths_both_ways(a, b, path, keys, (n - 1) as nat);
        let key = keys[n - 1];
        let child = member_path(path, key);
        let x = key_differences(a, b, path, keys, (n - 1) as nat);
        let y = key_differences(b, a, path, keys, (n - 1) as nat);
        lemma_place(a, key, 0);
        lemma_place(b, key, 0);
        if let (Some(i), Some(j)) = (place(a, key), place(b, key)) {
            swapping_keeps_the_paths(a[i].1, b[j].1, child);
            let d = differences(a[i].1, b[j].1, child);
            let e = differences(b[j].1, a[i].1, child);
            assert(paths(x + d) =~= paths(x) + paths(d));
            assert(paths(y + e) =~= paths(y) + paths(e));
        } else if place(a, key) is Some || place(b, key) is Some {
            assert(paths(here) =~= paths(x).push(child));
            assert(paths(there) =~= paths(y).push(child));
        }
    } else {
        assert(here =~= there);
    }
}

/// Swapping the two values keeps the paths that are reported, and their order.
pub proof fn swapping_keeps_the_paths(before: JsonView, after: JsonView, path: Seq<char>)
    ensures
        paths(differences(before, after, path)) == paths(differences(after, before, path)),
    decreases before, 0nat,
{
    if let (JsonView::Object(a), JsonView::Object(b)) = (before, after) {
        lemma_keys_both_ways(a, b);
        lemma_key_paths_both_ways(a, b, path, all_keys(a, b), all_keys(a, b).len());
    } else {
        lemma_same_both_ways(before, after);
        assert(paths(differences(before, after, path)) =~= paths(
            differences(after, before, path),
        ));
    }
}

/// An array that differs is one difference with the array's own path, however
/// many of its items differ or were added; so is anything else that is not an
/// object on both sides.
pub proof fn an_array_that_differs_is_one_difference(
    before: JsonView,
    after: JsonView,
    path: Seq<char>,
)
    requires
        !(before is Object && after is Object),
        !same_value(before, after),
    ensures
        differences(before, after, path) == seq![
            DifferenceView { path, before: shown(before), after: shown(after) },
        ],
{
}

/// A key that can be told apart in a path.
pub open spec fn plain_key(key: Seq<char>) -> bool {
    key.len() > 0 && forall|i: int| 0 <= i < key.len() ==> #[trigger] key[i] != '.'
}

/// Every key of a value, outside its arrays, can be told apart in a path.
pub open spec fn plain_keys(value: JsonView) -> bool
    decreases value,
{
    match value {
        JsonView::Object(m) => forall|i: int|
            0 <= i < m.len() ==> plain_key((#[trigger] m[i]).0) && plain_keys(m[i].1),
        _ => true,
    }
}

/// `q` is the path `p` or leads on from it.
spec fn leads_on(p: Seq<char>, q: Seq<char>) -> bool {
    q == p || (q.len() > p.len() && q.take(p.len() as int) == p && q[p.len() as int] == '.')
}

proof fn lemma_leads_on(path: Seq<char>, key: Seq<char>, q: Seq<char>)
    requires
        plain_key(key),
        leads_on(member_path(path, key), q),
    ensures
        member_path(path, key).len() > 0,
        path.len() > 0 ==> leads_on(path, q),
{
    reveal_strlit(".");
    let child = member_path(path, key);
    if path.len() > 0 {
        assert(child.take(path.len() as int) =~= path);
        assert(child[path.len() as int] == '.');
        assert(q.take(child.len() as int) =~= child);
        assert(q.take(path.len() as int) =~= child.take(path.len() as int));
    }
}

/// No path leads on from two members.
proof fn lemma_one_member(path: Seq<char>, k: Seq<char>, l: Seq<char>, q: Seq<char>)
    requires
        plain_key(k),
        plain_key(l),
        leads_on(member_path(path, k), q),
        leads_on(member_path(path, l), q),
    ensures
        k == l,
{
    reveal_strlit(".");
    let base = if path.len() == 0 {
        0int
    } else {
        path.len() as int + 1
    };
    let p = member_path(path, k);
    let r = member_path(path, l);
    assert(q.take(p.len() as int) =~= p);
    assert(q.take(r.len() as int) =~= r);
    assert(p.len() == base + k.len() && r.len() == base + l.len());
    assert forall|i: int| 0 <= i < k.len() implies k[i] == #[trigger] q[base + i] by {
        assert(p[base + i] == k[i]);
        assert(q.take(p.len() as int)[base + i] == q[base + i]);
    }
    assert forall|i: int| 0 <= i < l.len() implies l[i] == #[trigger] q[base + i] by {
        assert(r[base + i] == l[i]);
        assert(q.take(r.len() as int)[base + i] == q[base + i]);
    }
    if k.len() < l.len() {
        assert(q[base + k.len()] == '.');
        assert(l[k.len() as int] == q[base + k.len()]);
    }
    if l.len() < k.len() {
        assert(q[base + l.len()] == '.');
        assert(k[l.len() as int] == q[base + l.len()]);
    }
    assert forall|i: int| 0 <= i < k.len() implies k[i] == l[i] by {
        assert(k[i] == q[base + i]);
    }
    assert(k =~= l);
}

proof fn lemma_key_paths_once(
    a: MembersView,
    b: MembersView,
    path: Seq<char>,
    keys: Seq<Seq<char>>,
    n: nat,
)
    requires
        n <= keys.len(),
        ascending(keys),
        plain_keys(JsonView::Object(a)),
        plain_keys(JsonView::Object(b)),
        forall|i: int| 0 <= i < keys.len() ==> plain_key(#[trigger] keys[i]),
    ensures
        paths(key_differences(a, b, path, keys, n)).no_duplicates(),
        forall|d: int|
            0 <= d < key_differences(a, b, path, keys, n).len() ==> exists|i: int|
                0 <= i < n && leads_on(
                    member_path(path, #[trigger] keys[i]),
                    (#[trigger] key_differences(a, b, path, keys, n)[d]).path,
                ),
    decreases a, n,
{
    let all = key_differences(a, b, path, keys, n);
    if n > 0 {
        lemma_key_paths_once(a, b, path, keys, (n - 1) as nat);
        let key = keys[n - 1];
        let child = member_path(path, key);
        let earlier = key_differences(a, b, path, keys, (n - 1) as nat);
        lemma_place(a, key, 0);
        lemma_place(b, key, 0);
        let fresh = all.skip(earlier.len() as int);
        assert(all.take(earlier.len() as int) =~= earlier);
        if let (Some(i), Some(j)) = (place(a, key), place(b, key)) {
            lemma_plain_members(a, i);
            lemma_plain_members(b, j);
            assert(plain_key(key));
            lemma_paths_once(a[i].1, b[j].1, child);
            assert(fresh =~= differences(a[i].1, b[j].1, child));
        }
        assert forall|d: int| 0 <= d < fresh.len() implies leads_on(
            child,
            (#[trigger] fresh[d]).path,
        ) by {
            if place(a, key) is Some && place(b, key) is Some {
            } else {
                assert(fresh[d] == all[earlier.len() + d]);
            }
        }
        assert(paths(fresh).no_duplicates()) by {
            if place(a, key) is Some && place(b, key) is Some {
            } else {
                assert(fresh.len() <= 1);
            }
        }
        assert forall|d: int| 0 <= d < all.len() implies exists|i: int|
            0 <= i < n && leads_on(
                member_path(path, #[trigger] keys[i]),
                (#[trigger] all[d]).path,
            ) by {
            if d < earlier.len() {
                assert(earlier[d] == all[d]);
                let i = choose|i: int|
                    0 <= i < n - 1 && leads_on(
                        member_path(path, #[trigger] keys[i]),
                        earlier[d].path,
                    );
                assert(leads_on(member_path(path, keys[i]), all[d].path));
            } else {
                assert(all[d] == fresh[d - earlier.len()]);
                assert(leads_on(member_path(path, keys[n - 1]), all[d].path));
            }
        }
        assert forall|d: int, e: int| 0 <= d < all.len() && 0 <= e < all.len() && d != e implies paths(
            all,
        )[d] != paths(all)[e] by {
            if d < earlier.len() && e < earlier.len() {
                assert(paths(earlier)[d] == paths(all)[d]);
                assert(paths(earlier)[e] == paths(all)[e]);
            } else if d >= earlier.len() && e >= earlier.len() {
                assert(paths(fresh)[d - earlier.len()] == paths(all)[d]);
                assert(paths(fresh)[e - earlier.len()] == paths(all)[e]);
            } else {
                let (old_one, new_one) = if d < e {
                    (d, e)
                } else {
                    (e, d)
                };
                assert(all[old_one] == earlier[old_one]);
                assert(all[new_one] == fresh[new_one - earlier.len()]);
                let i = choose|i: int|
                    0 <= i < n - 1 && leads_on(
                        member_path(path, #[trigger] keys[i]),
                        earlier[old_one].path,
                    );
                if all[old_one].path == all[new_one].path {
                    lemma_one_member(path, keys[i], key, all[new_one].path);
                    assert(precedes(keys[i], keys[n - 1]));
                    lemma_precedes_not_itself(key);
                }
            }
        }
    } else {
        assert(paths(all) =~= Seq::empty());
    }
}

proof fn lemma_plain_members(m: MembersView, i: int)
    requires
        plain_keys(JsonView::Object(m)),
        0 <= i < m.len(),
    ensures
        plain_key(m[i].0),
        plain_keys(m[i].1),
{
    let value = JsonView::Object(m);
    assert(value->Object_0[i] == m[i]);
}

proof fn lemma_keys_are_plain(a: MembersView, b: MembersView)
    requires
        plain_keys(JsonView::Object(a)),
        plain_keys(JsonView::Object(b)),
    ensures
        forall|i: int| 0 <= i < all_keys(a, b).len() ==> plain_key(#[trigger] all_keys(a, b)[i]),
{
    let keys = all_keys(a, b);
    keys_are_listed_in_order(a, b);
    assert forall|i: int| 0 <= i < keys.len() implies plain_key(#[trigger] keys[i]) by {
        assert(keys.contains(keys[i]));
        lemma_place(a, keys[i], 0);
        lemma_place(b, keys[i], 0);
        if let Some(k) = place(a, keys[i]) {
            lemma_plain_members(a, k);
        } else if let Some(k) = place(b, keys[i]) {
            lemma_plain_members(b, k);
        }
    }
}

proof fn lemma_paths_once(before: JsonView, after: JsonView, path: Seq<char>)
    requires
        plain_keys(before),
        plain_keys(after),
    ensures
        paths(differences(before, after, path)).no_duplicates(),
        path.len() > 0 ==> forall|d: int|
            0 <= d < differences(before, after, path).len() ==> leads_on(
                path,
                (#[trigger] differences(before, after, path)[d]).path,
            ),
    decreases before, 0nat,
{
    if let (JsonView::Object(a), JsonView::Object(b)) = (before, after) {
        let keys = all_keys(a, b);
        keys_are_listed_in_order(a, b);
        lemma_keys_are_plain(a, b);
        lemma_key_paths_once(a, b, path, keys, keys.len());
        let all = key_differences(a, b, path, keys, keys.len());
        assert(all == differences(before, after, path));
        if path.len() > 0 {
            assert forall|d: int| 0 <= d < all.len() implies leads_on(
                path,
                (#[trigger] all[d]).path,
            ) by {
                let i = choose|i: int|
                    0 <= i < keys.len() && leads_on(
                        member_path(path, #[trigger] keys[i]),
                        all[d].path,
                    );
                lemma_leads_on(path, keys[i], all[d].path);
            }
        }
    }
}

/// No path is reported twice of values whose keys can be told apart in a path.
pub proof fn no_path_is_reported_twice(before: JsonView, after: JsonView, path: Seq<char>)
    requires
        plain_keys(before),
        plain_keys(after),
    ensures
        paths(differences(before, after, path)).no_duplicates(),
{
    lemma_paths_once(before, after, path);
}

proof fn lemma_earlier_differences(
    a: MembersView,
    b: MembersView,
    path: Seq<char>,
    keys: Seq<Seq<char>>,
    m: nat,
    n: nat,
)
    requires
        m <= n <= keys.len(),
    ensures
        key_differences(a, b, path, keys, m).is_prefix_of(
            key_differences(a, b, path, keys, n),
        ),
    decreases n - m,
{
    if m < n {
        lemma_earlier_differences(a, b, path, keys, m, (n - 1) as nat);
        lemma_place(a, keys[n - 1], 0);
        lemma_place(b, keys[n - 1], 0);
    }
}

/// A key that only one of two objects has is reported, whichever it is.
pub proof fn added_and_removed_keys_are_reported(
    a: MembersView,
    b: MembersView,
    path: Seq<char>,
    key: Seq<char>,
)
    ensures
        member(a, key) is Some && member(b, key) is None ==> differences(
            JsonView::Object(a),
            JsonView::Object(b),
            path,
        ).contains(
            DifferenceView {
                path: member_path(path, key),
                before: shown(member(a, key)->0),
                after: "(removed)"@,
            },
        ),
        member(a, key) is None && member(b, key) is Some ==> differences(
            JsonView::Object(a),
            JsonView::Object(b),
            path,
        ).contains(
            DifferenceView {
                path: member_path(path, key),
                before: "(absent)"@,
                after: shown(member(b, key)->0),
            },
        ),
{
    let keys = all_keys(a, b);
    lemma_place(a, key, 0);
    lemma_place(b, key, 0);
    keys_are_listed_in_order(a, b);
    if (member(a, key) is Some) != (member(b, key) is Some) {
        assert(keys.contains(key));
        let n = choose|n: int| 0 <= n < keys.len() && keys[n] == key;
        let upto = key_differences(a, b, path, keys, (n + 1) as nat);
        let whole = key_differences(a, b, path, keys, keys.len());
        lemma_earlier_differences(a, b, path, keys, (n + 1) as nat, keys.len());
        assert(upto[upto.len() - 1] == whole[upto.len() - 1]);
    }
}

fn render(value: &Json) -> (r: String)
    ensures
        r@ == shown(value@),
{
    match value {
        Json::Text(text) => {
            if text.as_str().as_bytes().len() > 24 {
                let chars: Vec<char> = chars_of(text.as_str());
                let parts = split_words(chars.as_slice());
                assert(part_views(parts@).len() == parts@.len());
                let count: usize = parts.len();
                let mut out = "<".to_owned();
                out.append(decimal_text(count as i128).as_str());
                out.append(" byte pattern>");
                out
            } else {
                compact_text(value)
            }
        },
        _ => compact_text(value),
    }
}

/// Which of two texts comes first.
#[derive(Debug, Clone, Copy, PartialEq, Eq, Structural)]
enum Order {
    Before,
    Same,
    After,
}

fn order_of(a: &[char], b: &[char]) -> (r: Order)
    ensures
        (r is Before) == precedes(a@, b@),
        (r is Same) == (a@ == b@),
{
    let mut i: usize = 0;
    assert(a@.skip(0) =~= a@);
    assert(b@.skip(0) =~= b@);
    while i < a.len() && i < b.len()
        invariant
            i <= a@.len(),
            i <= b@.len(),
            a@.take(i as int) =~= b@.take(i as int),
            precedes(a@.skip(i as int), b@.skip(i as int)) == precedes(a@, b@),
        decreases a@.len() - i,
    {
        assert(a@.skip(i as int).skip(1) =~= a@.skip(i + 1));
        assert(b@.skip(i as int).skip(1) =~= b@.skip(i + 1));
        if a[i] != b[i] {
            assert(a@ != b@);
            if a[i] < b[i] {
                return Order::Before;
            }
            return Order::After;
        }
        i += 1;
    }
    if i < b.len() {
        assert(a@.len() != b@.len());
        Order::Before
    } else if i < a.len() {
        assert(a@.len() != b@.len());
        Order::After
    } else {
        assert(a@.take(i as int) =~= a@);
        assert(b@.take(i as int) =~= b@);
        Order::Same
    }
}

pub fn is_before(a: &[char], b: &[char]) -> (r: bool)
    ensures
        r == precedes(a@, b@),
{
    match order_of(a, b) {
        Order::Before => true,
        _ => false,
    }
}

pub open spec fn key_views(keys: Seq<Vec<char>>) -> Seq<Seq<char>> {
    keys.map_values(|k: Vec<char>| k@)
}

fn add_key(row: &mut Vec<Vec<char>>, key: &str)
    ensures
        key_views(final(row)@) == with_key(key_views(old(row)@), key@),
{
    let chars: Vec<char> = chars_of(key);
    let ghost before = key_views(row@);
    let mut at: usize = row.len();
    assert(before.take(at as int) =~= before);
    assert(before.skip(at as int) =~= Seq::empty());
    assert(with_key(before.take(at as int), key@) + before.skip(at as int) =~= with_key(
        before,
        key@,
    ));
    while at > 0
        invariant
            at <= row@.len(),
            chars@ == key@,
            key_views(row@) == before,
            before == key_views(old(row)@),
            with_key(before.take(at as int), key@) + before.skip(at as int) == with_key(
                before,
                key@,
            ),
        ensures
            at <= row@.len(),
            key_views(row@) == before,
            with_key(before.take(at as int), key@) + before.skip(at as int) == with_key(
                before,
                key@,
            ),
            with_key(before.take(at as int), key@) == before.take(at as int).push(key@),
        decreases at,
    {
        assert(before[at - 1] == row@[at - 1]@);
        assert(before.take(at as int).last() == before[at - 1]);
        assert(before.take(at as int).drop_last() =~= before.take(at - 1));
        match order_of(chars.as_slice(), row[at - 1].as_slice()) {
            Order::Same => {
                assert(with_key(before.take(at as int), key@) == before.take(at as int));
                assert(before.take(at as int) + before.skip(at as int) =~= before);
                return;
            },
            Order::After => {
                break;
            },
            Order::Before => {
                assert(with_key(before.take(at - 1), key@).push(before[at - 1]) + before.skip(
                    at as int,
                ) =~= with_key(before.take(at - 1), key@) + before.skip(at - 1));
                at -= 1;
            },
        }
    }
    row.insert(at, chars);
    assert(key_views(row@) =~= before.take(at as int).push(key@) + before.skip(at as int));
}

fn add_keys(row: &mut Vec<Vec<char>>, members: &Vec<(String, Json)>)
    ensures
        key_views(final(row)@) == with_keys(key_views(old(row)@), member_views(members@)),
{
    let ghost start = key_views(row@);
    let ghost all = member_views(members@);
    proof {
        lemma_member_views(members@);
    }
    for i in 0..members.len()
        invariant
            all == member_views(members@),
            all.len() == members@.len(),
            forall|j: int|
                0 <= j < members@.len() ==> #[trigger] all[j] == (
                    members@[j].0@,
                    json_view(members@[j].1),
                ),
            key_views(row@) == with_keys(start, all.take(i as int)),
    {
        assert(all.take(i + 1).drop_last() =~= all.take(i as int));
        assert(all.take(i + 1).last() == all[i as int]);
        add_key(row, members[i].0.as_str());
    }
    assert(all.take(all.len() as int) =~= all);
}

fn add_difference(out: &mut Vec<Difference>, one: Difference)
    ensures
        difference_views(final(out)@) == difference_views(old(out)@).push(one@),
{
    let ghost before = difference_views(out@);
    out.push(one);
    assert(difference_views(out@) =~= before.push(one@));
}

/// Collects where two values differ.
#[verifier::rlimit(40)]
pub fn walk(before: &Json, after: &Json, path: String, out: &mut Vec<Difference>)
    ensures
        difference_views(final(out)@) == difference_views(old(out)@) + differences(
            before@,
            after@,
            path@,
        ),
    decreases *before,
{
    let ghost start = difference_views(out@);
    match (before, after) {
        (Json::Object(a), Json::Object(b)) => {
            let mut keys: Vec<Vec<char>> = Vec::new();
            assert(key_views(keys@) =~= Seq::empty());
            add_keys(&mut keys, a);
            add_keys(&mut keys, b);
            let ghost ma = member_views(a@);
            let ghost mb = member_views(b@);
            let ghost all = all_keys(ma, mb);
            assert(all == key_views(keys@));
            proof {
                lemma_member_views(a@);
            }
            let mut n: usize = 0;
            assert(difference_views(out@) =~= start + key_differences(ma, mb, path@, all, 0));
            while n < keys.len()
                invariant
                    n <= keys@.len(),
                    *before == Json::Object(*a),
                    ma == member_views(a@),
                    mb == member_views(b@),
                    ma.len() == a@.len(),
                    all == key_views(keys@),
                    difference_views(out@) == start + key_differences(
                        ma,
                        mb,
                        path@,
                        all,
                        n as nat,
                    ),
                decreases keys@.len() - n,
            {
                let key: String = crate::text::string_of(keys[n].as_slice());
                assert(all[n as int] == key@);
                let child: String = if path.as_str().unicode_len() == 0 {
                    key.clone()
                } else {
                    let mut longer = path.clone();
                    longer.append(".");
                    longer.append(key.as_str());
                    longer
                };
                let ghost earlier = key_differences(ma, mb, path@, all, n as nat);
                proof {
                    lemma_place(ma, key@, 0);
                    lemma_place(mb, key@, 0);
                }
                let left = find(a, key.as_str());
                let right = get(b, key.as_str());
                match (left, right) {
                    (Some(i), Some(r)) => {
                        assert(decreases_to!(*before => before->Object_0));
                        assert(decreases_to!(*a => a[i as int]));
                        let ghost was = difference_views(out@);
                        let ghost path_of_child = child@;
                        walk(&a[i].1, r, child, out);
                        assert(was + differences(json_view(a@[i as int].1), r@, path_of_child)
                            =~= start + (earlier + differences(
                            json_view(a@[i as int].1),
                            r@,
                            path_of_child,
                        )));
                    },
                    (Some(i), None) => {
                        let one = Difference {
                            path: child,
                            before: render(&a[i].1),
                            after: "(removed)".to_owned(),
                        };
                        add_difference(out, one);
                        assert((start + earlier).push(one@) =~= start + earlier.push(one@));
                    },
                    (None, Some(r)) => {
                        let one = Difference {
                            path: child,
                            before: "(absent)".to_owned(),
                            after: render(r),
                        };
                        add_difference(out, one);
                        assert((start + earlier).push(one@) =~= start + earlier.push(one@));
                    },
                    (None, None) => {},
                }
                n += 1;
            }
        },
        _ => {
            if !same(before, after) {
                let one = Difference { path, before: render(before), after: render(after) };
                add_difference(out, one);
                assert(start.push(one@) =~= start + Seq::empty().push(one@));
            } else {
                assert(difference_views(out@) =~= start + Seq::empty());
            }
        },
    }
}

/// Field-by-field comparison of two offsets files, by key.
///
/// Signature strings are compared too, but a long one is summarised rather than
/// spelled out.
pub fn diff(before: &Offsets, after: &Offsets) -> (r: Vec<Difference>)
    ensures
        difference_views(r@) == differences(before.json(), after.json(), Seq::empty()),
{
    let mut out: Vec<Difference> = Vec::new();
    let ghost none = difference_views(out@);
    walk(&before.to_json(), &after.to_json(), String::new(), &mut out);
    assert(none =~= Seq::empty());
    assert(difference_views(out@) =~= differences(before.json(), after.json(), Seq::empty()));
    out
}

/// How many of these entries are of a kind.
pub open spec fn count_of(
    entries: Seq<(Seq<char>, ProvenanceView)>,
    kind: spec_fn(ProvenanceView) -> bool,
) -> int
    decreases entries.len(),
{
    if entries.len() == 0 {
        0
    } else {
        count_of(entries.drop_last(), kind) + (if kind(entries.last().1) {
            1int
        } else {
            0int
        })
    }
}

/// One line for each value that was carried.
pub open spec fn carried_lines(entries: Seq<(Seq<char>, ProvenanceView)>) -> Seq<char>
    decreases entries.len(),
{
    if entries.len() == 0 {
        ""@
    } else {
        match entries.last().1 {
            ProvenanceView::Carried(why) => carried_lines(entries.drop_last()) + "\n    - "@
                + entries.last().0 + " -- "@ + why,
            _ => carried_lines(entries.drop_last()),
        }
    }
}

/// The summary of where the values of a run come from.
pub open spec fn summary(entries: Seq<(Seq<char>, ProvenanceView)>) -> Seq<char> {
    let carried = count_of(entries, |p: ProvenanceView| p is Carried);
    "  "@ + decimal(count_of(entries, |p: ProvenanceView| p is Derived))
        + " values read from the dump, "@ + decimal(
        count_of(entries, |p: ProvenanceView| p is Layout),
    ) + " derived from the pointer size, "@ + decimal(
        count_of(entries, |p: ProvenanceView| p is SignatureFor),
    ) + " signatures generated"@ + (if carried == 0 {
        "\n  nothing carried from the base file"@
    } else {
        "\n  "@ + decimal(carried)
            + " value(s) carried from the base file, because no dump describes them:"@
            + carried_lines(entries)
    })
}

/// Human-readable summary of a run.
pub fn render_provenance(entries: &[(String, Provenance)]) -> (r: String)
    ensures
        r@ == summary(provenance_views(entries@)),
{
    let ghost all = provenance_views(entries@);
    let mut derived: usize = 0;
    let mut layout: usize = 0;
    let mut signatures: usize = 0;
    let mut carried: usize = 0;
    let mut lines = "".to_owned();
    for i in 0..entries.len()
        invariant
            all == provenance_views(entries@),
            derived <= i,
            layout <= i,
            signatures <= i,
            carried <= i,
            derived == count_of(all.take(i as int), |p: ProvenanceView| p is Derived),
            layout == count_of(all.take(i as int), |p: ProvenanceView| p is Layout),
            signatures == count_of(all.take(i as int), |p: ProvenanceView| p is SignatureFor),
            carried == count_of(all.take(i as int), |p: ProvenanceView| p is Carried),
            lines@ == carried_lines(all.take(i as int)),
    {
        let entry = &entries[i];
        assert(all.take(i + 1).drop_last() =~= all.take(i as int));
        assert(all.take(i + 1).last() == (entry.0@, entry.1@));
        match &entry.1 {
            Provenance::Derived(_) => {
                derived += 1;
            },
            Provenance::Layout(_) => {
                layout += 1;
            },
            Provenance::SignatureFor(_) => {
                signatures += 1;
            },
            Provenance::Carried(why) => {
                carried += 1;
                lines.append("\n    - ");
                lines.append(entry.0.as_str());
                lines.append(" -- ");
                lines.append(why.as_str());
            },
        }
    }
    assert(all.take(all.len() as int) =~= all);
    let mut text = "  ".to_owned();
    text.append(decimal_text(derived as i128).as_str());
    text.append(" values read from the dump, ");
    text.append(decimal_text(layout as i128).as_str());
    text.append(" derived from the pointer size, ");
    text.append(decimal_text(signatures as i128).as_str());
    text.append(" signatures generated");
    let tail: String = if carried == 0 {
        "\n  nothing carried from the base file".to_owned()
    } else {
        let mut tail = "\n  ".to_owned();
        tail.append(decimal_text(carried as i128).as_str());
        tail.append(" value(s) carried from the base file, because no dump describes them:");
        tail.append(lines.as_str());
        tail
    };
    text.append(tail.as_str());
    text
}

/// A text of more than twenty-four bytes is shown by how many words it has,
/// anything else as it is written.
pub proof fn only_long_texts_are_summarised(text: Seq<char>, value: JsonView)
    ensures
        encode_utf8(text).len() <= 24 ==> shown(JsonView::Text(text)) == quoted(text),
        encode_utf8(text).len() > 24 ==> shown(JsonView::Text(text)) == "<"@ + decimal(
            words(text).len() as int,
        ) + " byte pattern>"@,
        !(value is Text) ==> shown(value) == compact(value),
{
}

proof fn lemma_under_key(
    a: MembersView,
    b: MembersView,
    path: Seq<char>,
    keys: Seq<Seq<char>>,
    n: nat,
    k: int,
)
    requires
        0 <= k < n <= keys.len(),
        place(a, keys[k]) is Some,
        place(b, keys[k]) is Some,
    ensures
        ({
            let inner = differences(
                member(a, keys[k])->0,
                member(b, keys[k])->0,
                member_path(path, keys[k]),
            );
            forall|d: int|
                0 <= d < inner.len() ==> key_differences(a, b, path, keys, n).contains(
                    #[trigger] inner[d],
                )
        }),
    decreases n,
{
    let all = key_differences(a, b, path, keys, n);
    let earlier = key_differences(a, b, path, keys, (n - 1) as nat);
    let inner = differences(
        member(a, keys[k])->0,
        member(b, keys[k])->0,
        member_path(path, keys[k]),
    );
    let key = keys[n - 1];
    lemma_place(a, key, 0);
    lemma_place(b, key, 0);
    assert forall|d: int| 0 <= d < inner.len() implies all.contains(#[trigger] inner[d]) by {
        if k < n - 1 {
            lemma_under_key(a, b, path, keys, (n - 1) as nat, k);
            assert(earlier.contains(inner[d]));
            let e = choose|e: int| 0 <= e < earlier.len() && earlier[e] == inner[d];
            assert(all[e] == earlier[e]);
        } else {
            assert(all == earlier + inner);
            assert(all[earlier.len() + d] == inner[d]);
        }
    }
}

/// What two objects differ in under a key they share is what the two values
/// differ in, under that key's path.
pub proof fn differences_are_those_of_the_values(
    a: MembersView,
    b: MembersView,
    path: Seq<char>,
    key: Seq<char>,
)
    requires
        member(a, key) is Some,
        member(b, key) is Some,
    ensures
        ({
            let inner = differences(member(a, key)->0, member(b, key)->0, member_path(path, key));
            forall|d: int|
                0 <= d < inner.len() ==> differences(
                    JsonView::Object(a),
                    JsonView::Object(b),
                    path,
                ).contains(#[trigger] inner[d])
        }),
{
    let keys = all_keys(a, b);
    keys_are_listed_in_order(a, b);
    assert(keys.contains(key));
    let k = choose|k: int| 0 <= k < keys.len() && keys[k] == key;
    lemma_under_key(a, b, path, keys, keys.len(), k);
}

/// One text comes before another if and only if it is the start of it, or has the
/// lower character where they first differ.
pub proof fn texts_are_ordered_by_their_first_difference(a: Seq<char>, b: Seq<char>)
    ensures
        precedes(a, b) <==> exists|n: int|
            #![trigger a.take(n)]
            0 <= n <= a.len() && n < b.len() && a.take(n) == b.take(n) && (n == a.len() || a[n] < b[n]),
    decreases a.len(),
{
    if b.len() > 0 && a.len() > 0 {
        let x = a.skip(1);
        let y = b.skip(1);
        texts_are_ordered_by_their_first_difference(x, y);
        if precedes(a, b) {
            if a[0] == b[0] {
                let m = choose|n: int|
                    #![trigger x.take(n)]
                    0 <= n <= x.len() && n < y.len() && x.take(n) == y.take(n) && (n == x.len() || x[n] < y[n]);
                let n = m + 1;
                assert(a.take(n) =~= b.take(n)) by {
                    assert forall|i: int| 0 <= i < n implies a[i] == b[i] by {
                        if i > 0 {
                            assert(x.take(m)[i - 1] == y.take(m)[i - 1]);
                        }
                    }
                }
            } else {
                assert(a.take(0) =~= b.take(0));
            }
        }
        if exists|n: int|
            #![trigger a.take(n)]
            0 <= n <= a.len() && n < b.len() && a.take(n) == b.take(n) && (n == a.len() || a[n] < b[n]) {
            let n = choose|n: int|
                #![trigger a.take(n)]
                0 <= n <= a.len() && n < b.len() && a.take(n) == b.take(n) && (n == a.len() || a[n] < b[n]);
            if n > 0 {
                assert(a.take(n)[0] == b.take(n)[0]);
                let m = n - 1;
                assert(x.take(m) =~= y.take(m)) by {
                    assert forall|i: int| 0 <= i < m implies x[i] == y[i] by {
                        assert(a.take(n)[i + 1] == b.take(n)[i + 1]);
                    }
                }
            }
        }
    } else if b.len() > 0 {
        assert(a.take(0) =~= b.take(0));
    }
}

} // verus!
