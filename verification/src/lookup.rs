//! `lookup.json`: the index the client reads before it fetches any offsets.
//!
//! The client keys it by the game's broadcast version, and caches the fetched
//! offsets under `(filename, architecture)` while comparing
//! `cached >= offsetsVersion`. Two consequences shape this module:
//!
//!   * `offsetsVersion` has to be counted **per file**, or republishing a
//!     corrected file under the same name would leave every existing client on
//!     its cached, broken copy.
//!   * the counter only needs to move when the content moves, so an unchanged
//!     regeneration must not churn it.

use vstd::prelude::*;

use crate::error::{agrees_in_view, Result};
use crate::json::{
    compact, copy, distinct, file_text, finished_file, get, json_view, lemma_found,
    lemma_item_views, lemma_member_views, lemma_place, member, member_views, place, pretty,
    pretty_json, put, set_member, setting_a_member, with_member, Json, JsonView, MembersView,
};
use crate::numbers::{
    decimal, decimal_round_trips, decimal_text, digit_value, digits_value,
    lemma_digits_value_grows, parse_integer, parsed,
};
use crate::offsets::{no_members, signature_json, signature_of, SigView, Signature};
use crate::pe::Arch;
use crate::report::{
    ascending, lemma_precedes_either_way, lemma_precedes_not_itself, lemma_precedes_onwards,
    precedes,
};
use crate::schema::signatures_round_trip;
use crate::text::{chars_of, is_white, same_text, trim_end, trimmed_end};

verus! {

pub struct Lookup {
    /// Top-level keys this generator does not model, kept verbatim.
    ///
    /// `lookup.json` is authored by more than this tool. The sync workflow adds
    /// `upstream_commit`, and the client reads `bundle_version` for replay
    /// detection and `min_client_version` to refuse a bundle it is too old for.
    /// Dropping them when the file is written would take the client's rollback
    /// protection with them.
    pub extra: Vec<(String, Json)>,
    pub patterns: Patterns,
    pub versions: Vec<(String, Json)>,
}

#[derive(Debug, Clone)]
pub struct Patterns {
    pub x64: BroadcastPattern,
    pub x86: BroadcastPattern,
}

#[derive(Debug, Clone)]
pub struct BroadcastPattern {
    pub broadcast_version: Signature,
}

#[derive(Debug, Clone, PartialEq, Eq)]
pub struct VersionEntry {
    pub version: String,
    pub file: String,
    pub offsets_version: i64,
}

/// What a [`VersionEntry`] says.
pub struct EntryView {
    pub version: Seq<char>,
    pub file: Seq<char>,
    pub offsets_version: i64,
}

impl View for VersionEntry {
    type V = EntryView;

    open spec fn view(&self) -> EntryView {
        EntryView {
            version: self.version@,
            file: self.file@,
            offsets_version: self.offsets_version,
        }
    }
}

/// What changed relative to the file already on disk.
#[derive(Debug, Clone, Copy, PartialEq, Eq, Structural)]
pub enum ContentChange {
    New,
    Changed,
    Identical,
}

/// An entry as it is written.
pub open spec fn entry_json(entry: EntryView) -> JsonView {
    JsonView::Object(
        no_members()
            .push(("version"@, JsonView::Text(entry.version)))
            .push(("file"@, JsonView::Text(entry.file)))
            .push(("offsetsVersion"@, JsonView::Integer(entry.offsets_version))),
    )
}

/// The entry that a value spells: an object with the three members, whatever
/// else it has, or an array of the three values.
pub open spec fn entry_of(value: JsonView) -> Option<EntryView> {
    let parts = match value {
        JsonView::Object(m) => Some(
            (member(m, "version"@), member(m, "file"@), member(m, "offsetsVersion"@)),
        ),
        JsonView::List(items) => if items.len() == 3 {
            Some((Some(items[0]), Some(items[1]), Some(items[2])))
        } else {
            None
        },
        _ => None,
    };
    match parts {
        Some((
            Some(JsonView::Text(version)),
            Some(JsonView::Text(file)),
            Some(JsonView::Integer(offsets_version)),
        )) => Some(EntryView { version, file, offsets_version }),
        _ => None,
    }
}

/// Whether a member is an entry for this file.
pub open spec fn serves(one: (Seq<char>, JsonView), file: Seq<char>) -> bool {
    match entry_of(one.1) {
        Some(entry) => entry.file == file,
        None => false,
    }
}

/// Highest `offsetsVersion` currently published for `file`.
pub open spec fn published(versions: MembersView, file: Seq<char>) -> Option<i64>
    decreases versions.len(),
{
    if versions.len() == 0 {
        None
    } else {
        let before = published(versions.drop_last(), file);
        if serves(versions.last(), file) {
            let here = entry_of(versions.last().1)->0.offsets_version;
            match before {
                Some(n) => if n >= here {
                    Some(n)
                } else {
                    Some(here)
                },
                None => Some(here),
            }
        } else {
            before
        }
    }
}

/// The `offsetsVersion` that makes existing clients refetch exactly when the
/// content changed. Nothing on the client can be stale for a file that has
/// never been published.
pub open spec fn next_version(change: ContentChange, current: Option<i64>) -> int {
    match current {
        None => 1,
        Some(n) => if change is Identical {
            n as int
        } else {
            n + 1
        },
    }
}

/// `versions` with every key that serves the file moved to the new entry,
/// `default` apart: they all serve the same bytes, so they must all invalidate
/// together.
pub open spec fn moved(versions: MembersView, entry: EntryView) -> MembersView {
    versions.map_values(
        |one: (Seq<char>, JsonView)|
            if one.0 != "default"@ && serves(one, entry.file) {
                (one.0, entry_json(entry))
            } else {
                one
            },
    )
}

/// A key as a number.
pub open spec fn number_of(key: Seq<char>) -> Option<int> {
    parsed(key, 10, i64::MIN as int, i64::MAX as int)
}

/// The entry with the highest number for its key, and that number; the last one
/// of those that share it.
pub open spec fn newest(versions: MembersView) -> Option<(int, EntryView)>
    decreases versions.len(),
{
    if versions.len() == 0 {
        None
    } else {
        let before = newest(versions.drop_last());
        match (number_of(versions.last().0), entry_of(versions.last().1)) {
            (Some(n), Some(entry)) => match before {
                Some((best, _)) => if n >= best {
                    Some((n, entry))
                } else {
                    before
                },
                None => Some((n, entry)),
            },
            _ => before,
        }
    }
}

/// `versions` with `default` pointing at the newest build we know about: a
/// client running a build nobody has published offsets for gets the most recent
/// ones rather than an arbitrary entry.
pub open spec fn refreshed(versions: MembersView) -> MembersView {
    match newest(versions) {
        Some((_, entry)) => with_member(versions, "default"@, entry_json(entry)),
        None => versions,
    }
}

/// The entry that is recorded for a build.
pub open spec fn recorded_entry(
    versions: MembersView,
    game_version: Seq<char>,
    file: Seq<char>,
    change: ContentChange,
) -> EntryView {
    EntryView {
        version: "V"@ + game_version,
        file,
        offsets_version: next_version(change, published(versions, file)) as i64,
    }
}

/// `versions` after a build has been recorded.
pub open spec fn upserted(
    versions: MembersView,
    broadcast_version: i32,
    game_version: Seq<char>,
    file: Seq<char>,
    change: ContentChange,
) -> MembersView {
    let entry = recorded_entry(versions, game_version, file, change);
    refreshed(
        with_member(
            moved(versions, entry),
            decimal(broadcast_version as int),
            entry_json(entry),
        ),
    )
}

/// A member put in its place in a row whose numbers fall, behind those of its
/// own number.
pub open spec fn placed_newest_first(
    row: MembersView,
    one: (Seq<char>, JsonView),
) -> MembersView
    decreases row.len(),
{
    if row.len() > 0 && number_of(one.0)->0 > number_of(row.last().0)->0 {
        placed_newest_first(row.drop_last(), one).push(row.last())
    } else {
        row.push(one)
    }
}

/// The members whose keys are numbers, newest first.
pub open spec fn numbered(versions: MembersView) -> MembersView
    decreases versions.len(),
{
    if versions.len() == 0 {
        Seq::empty()
    } else {
        let before = numbered(versions.drop_last());
        if versions.last().0 != "default"@ && number_of(versions.last().0) is Some {
            placed_newest_first(before, versions.last())
        } else {
            before
        }
    }
}

/// A member put in its place in a row that is sorted by key.
pub open spec fn placed_by_key(row: MembersView, one: (Seq<char>, JsonView)) -> MembersView
    decreases row.len(),
{
    if row.len() > 0 && precedes(one.0, row.last().0) {
        placed_by_key(row.drop_last(), one).push(row.last())
    } else {
        row.push(one)
    }
}

/// The members whose keys are no numbers, sorted by key.
pub open spec fn leftover(versions: MembersView) -> MembersView
    decreases versions.len(),
{
    if versions.len() == 0 {
        Seq::empty()
    } else {
        let before = leftover(versions.drop_last());
        if versions.last().0 != "default"@ && number_of(versions.last().0) is None {
            placed_by_key(before, versions.last())
        } else {
            before
        }
    }
}

/// `versions` as they are written: `default` on top, then newest first, so the
/// file reads like a changelog and diffs stay local. Anything non-numeric is
/// kept rather than dropped; losing a hand-added key would be worse than odd
/// ordering.
pub open spec fn ordered(versions: MembersView) -> MembersView {
    let top: MembersView = match member(versions, "default"@) {
        Some(value) => Seq::empty().push(("default"@, value)),
        None => Seq::empty(),
    };
    top + numbered(versions) + leftover(versions)
}

pub open spec fn pattern_json(pattern: SigView) -> JsonView {
    JsonView::Object(no_members().push(("broadcastVersion"@, signature_json(pattern))))
}

pub open spec fn patterns_json(x64: SigView, x86: SigView) -> JsonView {
    JsonView::Object(
        no_members().push(("x64"@, pattern_json(x64))).push(("x86"@, pattern_json(x86))),
    )
}

/// What a [`Lookup`] holds.
pub struct LookupView {
    pub extra: MembersView,
    pub x64: SigView,
    pub x86: SigView,
    pub versions: MembersView,
}

impl View for Lookup {
    type V = LookupView;

    open spec fn view(&self) -> LookupView {
        LookupView {
            extra: member_views(self.extra@),
            x64: self.patterns.x64.broadcast_version@,
            x86: self.patterns.x86.broadcast_version@,
            versions: member_views(self.versions@),
        }
    }
}

impl LookupView {
    /// The broadcast-version pattern of an architecture.
    pub open spec fn pattern(self, arch: Arch) -> SigView {
        match arch {
            Arch::X86 => self.x86,
            Arch::X64 => self.x64,
        }
    }

    /// The file with another broadcast-version pattern for an architecture.
    pub open spec fn with_pattern(self, arch: Arch, signature: SigView) -> LookupView {
        match arch {
            Arch::X86 => LookupView { x86: signature, ..self },
            Arch::X64 => LookupView { x64: signature, ..self },
        }
    }

    /// The file after `bundle_version` has been moved on, where there is one.
    pub open spec fn bumped(self) -> LookupView {
        match bundle_of(self.extra) {
            Some(n) => LookupView {
                extra: with_member(
                    self.extra,
                    "bundle_version"@,
                    JsonView::Integer((n + 1) as i64),
                ),
                ..self
            },
            None => self,
        }
    }
}

/// The file as it is written: the keys it does not model first, then the
/// patterns and the versions.
pub open spec fn lookup_json(lookup: LookupView) -> JsonView {
    JsonView::Object(
        lookup.extra.push(("patterns"@, patterns_json(lookup.x64, lookup.x86))).push(
            ("versions"@, JsonView::Object(ordered(lookup.versions))),
        ),
    )
}

/// The broadcast-version pattern that a value spells: an object with the member,
/// whatever else it has, or an array of the one value.
pub open spec fn pattern_of(value: JsonView) -> Option<SigView> {
    match value {
        JsonView::Object(m) => match member(m, "broadcastVersion"@) {
            Some(signature) => signature_of(signature),
            None => None,
        },
        JsonView::List(items) => if items.len() == 1 {
            signature_of(items[0])
        } else {
            None
        },
        _ => None,
    }
}

/// The patterns that a value spells, the one for x64 first.
pub open spec fn patterns_of(value: JsonView) -> Option<(SigView, SigView)> {
    let parts = match value {
        JsonView::Object(m) => (member(m, "x64"@), member(m, "x86"@)),
        JsonView::List(items) => if items.len() == 2 {
            (Some(items[0]), Some(items[1]))
        } else {
            (None, None)
        },
        _ => (None, None),
    };
    match parts {
        (Some(x64), Some(x86)) => match (pattern_of(x64), pattern_of(x86)) {
            (Some(x64), Some(x86)) => Some((x64, x86)),
            _ => None,
        },
        _ => None,
    }
}

/// The members that are neither the patterns nor the versions, in order.
pub open spec fn not_modelled(members: MembersView) -> MembersView
    decreases members.len(),
{
    if members.len() == 0 {
        Seq::empty()
    } else {
        let before = not_modelled(members.drop_last());
        if members.last().0 == "patterns"@ || members.last().0 == "versions"@ {
            before
        } else {
            before.push(members.last())
        }
    }
}

/// The file that a value spells: an object with patterns and versions, all else
/// kept as it is.
pub open spec fn lookup_of(value: JsonView) -> Option<LookupView> {
    match value {
        JsonView::Object(m) => match (member(m, "patterns"@), member(m, "versions"@)) {
            (Some(patterns), Some(JsonView::Object(versions))) => match patterns_of(patterns) {
                Some((x64, x86)) => Some(
                    LookupView { extra: not_modelled(m), x64, x86, versions },
                ),
                None => None,
            },
            _ => None,
        },
        _ => None,
    }
}

/// The view of an optional file.
pub open spec fn maybe_lookup(lookup: Option<Lookup>) -> Option<LookupView> {
    match lookup {
        Some(lookup) => Some(lookup@),
        None => None,
    }
}

/// The `bundle_version` among these members.
pub open spec fn bundle_of(extra: MembersView) -> Option<i64> {
    match member(extra, "bundle_version"@) {
        Some(JsonView::Integer(n)) => Some(n),
        _ => None,
    }
}

/// The file after `bundle_version` has been moved on if the bundle changes.
pub open spec fn settled(
    lookup: LookupView,
    change: ContentChange,
    current: Seq<char>,
    rendered: Seq<char>,
) -> LookupView {
    if bundle_changes(change, current, rendered) {
        lookup.bumped()
    } else {
        lookup
    }
}

/// Whether the bundle changes: the offsets file has other content, or
/// `lookup.json` is about to be written with other content than it has.
pub open spec fn bundle_changes(
    change: ContentChange,
    current: Seq<char>,
    rendered: Seq<char>,
) -> bool {
    !(change is Identical) || change_between(Some(current), rendered) != ContentChange::Identical
}

/// `text` with `\n` for each `\r\n`.
pub open spec fn unix_lines(text: Seq<char>) -> Seq<char>
    decreases text.len(),
{
    if text.len() == 0 {
        text
    } else if text.len() >= 2 && text[text.len() - 2] == '\r' && text.last() == '\n' {
        unix_lines(text.take(text.len() - 2)).push('\n')
    } else {
        unix_lines(text.drop_last()).push(text.last())
    }
}

/// Line endings and trailing whitespace are not content.
pub open spec fn content(text: Seq<char>) -> Seq<char> {
    trim_end(unix_lines(text))
}

/// How freshly generated text compares to what is there.
pub open spec fn change_between(existing: Option<Seq<char>>, generated: Seq<char>) -> ContentChange {
    match existing {
        None => ContentChange::New,
        Some(text) => if content(text) == content(generated) {
            ContentChange::Identical
        } else {
            ContentChange::Changed
        },
    }
}

/// A key put in its place in a row of `(key, version)` that is sorted by key.
pub open spec fn placed_pair(row: Seq<(Seq<char>, Seq<char>)>, one: (Seq<char>, Seq<char>)) -> Seq<
    (Seq<char>, Seq<char>),
>
    decreases row.len(),
{
    if row.len() > 0 && precedes(one.0, row.last().0) {
        placed_pair(row.drop_last(), one).push(row.last())
    } else {
        row.push(one)
    }
}

/// The keys that serve a file with the version each of them names, sorted by key.
pub open spec fn serving(versions: MembersView, file: Seq<char>) -> Seq<(Seq<char>, Seq<char>)>
    decreases versions.len(),
{
    if versions.len() == 0 {
        Seq::empty()
    } else {
        let before = serving(versions.drop_last(), file);
        if serves(versions.last(), file) {
            placed_pair(before, (versions.last().0, entry_of(versions.last().1)->0.version))
        } else {
            before
        }
    }
}

/// What a row of `(key, version)` says.
pub open spec fn pair_views(row: Seq<(String, String)>) -> Seq<(Seq<char>, Seq<char>)> {
    row.map_values(|p: (String, String)| (p.0@, p.1@))
}

/// The view of an optional entry.
pub open spec fn maybe_entry(entry: Option<VersionEntry>) -> Option<EntryView> {
    match entry {
        Some(entry) => Some(entry@),
        None => None,
    }
}

impl VersionEntry {
    /// The entry as it is written.
    pub fn to_json(&self) -> (r: Json)
        ensures
            r@ == entry_json(self@),
    {
        let mut members: Vec<(String, Json)> = Vec::new();
        put(&mut members, "version", Json::Text(self.version.clone()));
        put(&mut members, "file", Json::Text(self.file.clone()));
        put(&mut members, "offsetsVersion", Json::Integer(self.offsets_version));
        Json::Object(members)
    }

    /// The entry that a value spells.
    pub fn from_json(value: &Json) -> (r: Option<VersionEntry>)
        ensures
            maybe_entry(r) == entry_of(value@),
    {
        match value {
            Json::Object(members) => {
                match (
                    get(members, "version"),
                    get(members, "file"),
                    get(members, "offsetsVersion"),
                ) {
                    (
                        Some(Json::Text(version)),
                        Some(Json::Text(file)),
                        Some(Json::Integer(offsets_version)),
                    ) => Some(
                        VersionEntry {
                            version: version.clone(),
                            file: file.clone(),
                            offsets_version: *offsets_version,
                        },
                    ),
                    _ => None,
                }
            },
            Json::List(items) => {
                proof {
                    lemma_item_views(items@);
                }
                if items.len() != 3 {
                    return None;
                }
                match (&items[0], &items[1], &items[2]) {
                    (Json::Text(version), Json::Text(file), Json::Integer(offsets_version)) => Some(
                        VersionEntry {
                            version: version.clone(),
                            file: file.clone(),
                            offsets_version: *offsets_version,
                        },
                    ),
                    _ => None,
                }
            },
            _ => None,
        }
    }
}

fn key_number(key: &str) -> (r: Option<i64>)
    ensures
        match r {
            Some(n) => number_of(key@) == Some(n as int),
            None => number_of(key@) is None,
        },
{
    let chars: Vec<char> = chars_of(key);
    match parse_integer(chars.as_slice(), 10, i64::MIN as i128, i64::MAX as i128) {
        Some(n) => Some(n as i64),
        None => None,
    }
}

/// Sets each key that serves the file of the entry, `default` apart.
fn move_all(versions: &mut Vec<(String, Json)>, entry: &VersionEntry)
    ensures
        member_views(final(versions)@) == moved(member_views(old(versions)@), entry@),
{
    proof {
        lemma_member_views(versions@);
    }
    let ghost before = member_views(versions@);
    let ghost after = moved(before, entry@);
    let count: usize = versions.len();
    let mut i: usize = 0;
    while i < count
        invariant
            i <= count == versions@.len() == before.len(),
            after == moved(before, entry@),
            member_views(versions@).len() == count,
            forall|j: int| 0 <= j < i ==> #[trigger] member_views(versions@)[j] == after[j],
            forall|j: int| i <= j < count ==> #[trigger] member_views(versions@)[j] == before[j],
        decreases count - i,
    {
        proof {
            lemma_member_views(versions@);
        }
        let ghost was = versions@;
        assert(member_views(was)[i as int] == before[i as int]);
        let key: String = versions[i].0.clone();
        let old_entry: Option<VersionEntry> = VersionEntry::from_json(&versions[i].1);
        let moves = match old_entry {
            Some(old_entry) => !same_text(key.as_str(), "default") && same_text(
                old_entry.file.as_str(),
                entry.file.as_str(),
            ),
            None => false,
        };
        if moves {
            versions.set(i, (key, entry.to_json()));
        }
        proof {
            lemma_member_views(versions@);
            assert forall|j: int| 0 <= j < count implies #[trigger] member_views(versions@)[j] == (
            if j == i {
                after[j]
            } else {
                member_views(was)[j]
            }) by {
                if j != i {
                    assert(versions@[j] == was[j]);
                }
            }
        }
        i += 1;
    }
    assert(member_views(versions@) =~= after);
}

fn place_newest_first(row: &mut Vec<(String, Json)>, key: &String, number: i64, value: &Json)
    requires
        number_of(key@) == Some(number as int),
        forall|i: int|
            0 <= i < old(row)@.len() ==> number_of((#[trigger] old(row)@[i]).0@) is Some,
    ensures
        member_views(final(row)@) == placed_newest_first(
            member_views(old(row)@),
            (key@, value@),
        ),
        forall|i: int|
            0 <= i < final(row)@.len() ==> number_of((#[trigger] final(row)@[i]).0@) is Some,
{
    proof {
        lemma_member_views(row@);
    }
    let ghost start = row@;
    let ghost before = member_views(row@);
    let ghost one = (key@, value@);
    let mut at: usize = row.len();
    assert(before.take(at as int) =~= before);
    assert(before.skip(at as int) =~= Seq::empty());
    assert(placed_newest_first(before.take(at as int), one) + before.skip(at as int)
        =~= placed_newest_first(before, one));
    while at > 0
        invariant
            at <= row@.len(),
            row@ == start,
            before == member_views(start),
            before.len() == start.len(),
            one == (key@, value@),
            number_of(key@) == Some(number as int),
            forall|i: int| 0 <= i < start.len() ==> number_of((#[trigger] start[i]).0@) is Some,
            forall|i: int|
                0 <= i < start.len() ==> #[trigger] before[i] == (
                    start[i].0@,
                    json_view(start[i].1),
                ),
            placed_newest_first(before.take(at as int), one) + before.skip(at as int)
                == placed_newest_first(before, one),
        ensures
            at <= row@.len(),
            row@ == start,
            placed_newest_first(before.take(at as int), one) + before.skip(at as int)
                == placed_newest_first(before, one),
            placed_newest_first(before.take(at as int), one) == before.take(at as int).push(one),
        decreases at,
    {
        assert(before.take(at as int).last() == before[at - 1]);
        assert(before.take(at as int).drop_last() =~= before.take(at - 1));
        assert(number_of(start[at - 1].0@) is Some);
        assert(before[at - 1] == (start[at - 1].0@, json_view(start[at - 1].1)));
        let newer = match key_number(row[at - 1].0.as_str()) {
            Some(other) => number > other,
            None => false,
        };
        if !newer {
            break;
        }
        assert(placed_newest_first(before.take(at - 1), one).push(before[at - 1]) + before.skip(
            at as int,
        ) =~= placed_newest_first(before.take(at - 1), one) + before.skip(at - 1));
        at -= 1;
    }
    row.insert(at, (key.clone(), copy(value)));
    proof {
        lemma_member_views(row@);
    }
    assert(member_views(row@) =~= before.take(at as int).push(one) + before.skip(at as int));
}

fn comes_before(a: &str, b: &str) -> (r: bool)
    ensures
        r == precedes(a@, b@),
{
    let first: Vec<char> = chars_of(a);
    let second: Vec<char> = chars_of(b);
    crate::report::is_before(first.as_slice(), second.as_slice())
}

fn place_by_key(row: &mut Vec<(String, Json)>, key: &String, value: &Json)
    ensures
        member_views(final(row)@) == placed_by_key(member_views(old(row)@), (key@, value@)),
{
    proof {
        lemma_member_views(row@);
    }
    let ghost start = row@;
    let ghost before = member_views(row@);
    let ghost one = (key@, value@);
    let mut at: usize = row.len();
    assert(before.take(at as int) =~= before);
    assert(before.skip(at as int) =~= Seq::empty());
    assert(placed_by_key(before.take(at as int), one) + before.skip(at as int) =~= placed_by_key(
        before,
        one,
    ));
    while at > 0
        invariant
            at <= row@.len(),
            row@ == start,
            before == member_views(start),
            before.len() == start.len(),
            one == (key@, value@),
            forall|i: int|
                0 <= i < start.len() ==> #[trigger] before[i] == (
                    start[i].0@,
                    json_view(start[i].1),
                ),
            placed_by_key(before.take(at as int), one) + before.skip(at as int) == placed_by_key(
                before,
                one,
            ),
        ensures
            at <= row@.len(),
            row@ == start,
            placed_by_key(before.take(at as int), one) + before.skip(at as int) == placed_by_key(
                before,
                one,
            ),
            placed_by_key(before.take(at as int), one) == before.take(at as int).push(one),
        decreases at,
    {
        assert(before.take(at as int).last() == before[at - 1]);
        assert(before.take(at as int).drop_last() =~= before.take(at - 1));
        assert(before[at - 1] == (start[at - 1].0@, json_view(start[at - 1].1)));
        if !comes_before(key.as_str(), row[at - 1].0.as_str()) {
            break;
        }
        assert(placed_by_key(before.take(at - 1), one).push(before[at - 1]) + before.skip(
            at as int,
        ) =~= placed_by_key(before.take(at - 1), one) + before.skip(at - 1));
        at -= 1;
    }
    row.insert(at, (key.clone(), copy(value)));
    proof {
        lemma_member_views(row@);
    }
    assert(member_views(row@) =~= before.take(at as int).push(one) + before.skip(at as int));
}

impl Lookup {
    /// The entry for a key.
    pub fn entry(&self, key: &str) -> (r: Option<VersionEntry>)
        ensures
            maybe_entry(r) == (match member(self@.versions, key@) {
                Some(value) => entry_of(value),
                None => None,
            }),
    {
        match get(&self.versions, key) {
            Some(value) => VersionEntry::from_json(value),
            None => None,
        }
    }

    /// Highest `offsetsVersion` currently published for `file`.
    pub fn published_version_for(&self, file: &str) -> (r: Option<i64>)
        ensures
            r == published(self@.versions, file@),
    {
        let ghost all = self@.versions;
        proof {
            lemma_member_views(self.versions@);
        }
        let mut best: Option<i64> = None;
        for i in 0..self.versions.len()
            invariant
                all == self@.versions,
                all.len() == self.versions@.len(),
                forall|j: int|
                    0 <= j < self.versions@.len() ==> #[trigger] all[j] == (
                        self.versions@[j].0@,
                        json_view(self.versions@[j].1),
                    ),
                best == published(all.take(i as int), file@),
        {
            assert(all.take(i + 1).drop_last() =~= all.take(i as int));
            assert(all.take(i + 1).last() == all[i as int]);
            if let Some(entry) = VersionEntry::from_json(&self.versions[i].1) {
                if same_text(entry.file.as_str(), file) {
                    best = match best {
                        Some(n) => if n >= entry.offsets_version {
                            Some(n)
                        } else {
                            Some(entry.offsets_version)
                        },
                        None => Some(entry.offsets_version),
                    };
                }
            }
        }
        assert(all.take(all.len() as int) =~= all);
        best
    }

    /// Records `broadcast_version -> file`, choosing an `offsetsVersion` that
    /// makes existing clients refetch exactly when the content changed.
    pub fn upsert(
        &mut self,
        broadcast_version: i32,
        game_version: &str,
        file: &str,
        change: ContentChange,
    ) -> (r: Result<i64>)
        requires
            next_version(change, published(old(self)@.versions, file@)) <= i64::MAX,
        ensures
            r is Ok,
            r->Ok_0 == next_version(change, published(old(self)@.versions, file@)),
            final(self)@ == (LookupView {
                versions: upserted(
                    old(self)@.versions,
                    broadcast_version,
                    game_version@,
                    file@,
                    change,
                ),
                ..old(self)@
            }),
    {
        let offsets_version: i64 = match self.published_version_for(file) {
            None => 1,
            Some(current) => match change {
                ContentChange::Identical => current,
                _ => current + 1,
            },
        };
        let mut version = "V".to_owned();
        version.append(game_version);
        let entry = VersionEntry { version, file: file.to_owned(), offsets_version };
        move_all(&mut self.versions, &entry);
        let key: String = decimal_text(broadcast_version as i128);
        set_member(&mut self.versions, key.as_str(), entry.to_json());
        self.refresh_default();
        Ok(offsets_version)
    }

    /// Points `default` at the newest build we know about.
    pub fn refresh_default(&mut self)
        ensures
            final(self)@ == (LookupView {
                versions: refreshed(old(self)@.versions),
                ..old(self)@
            }),
    {
        let ghost all = self@.versions;
        proof {
            lemma_member_views(self.versions@);
        }
        let mut best: Option<(i64, VersionEntry)> = None;
        for i in 0..self.versions.len()
            invariant
                all == self@.versions,
                all.len() == self.versions@.len(),
                forall|j: int|
                    0 <= j < self.versions@.len() ==> #[trigger] all[j] == (
                        self.versions@[j].0@,
                        json_view(self.versions@[j].1),
                    ),
                match best {
                    Some((n, entry)) => newest(all.take(i as int)) == Some((n as int, entry@)),
                    None => newest(all.take(i as int)) is None,
                },
                self.versions == old(self).versions,
                self.extra == old(self).extra,
                self.patterns == old(self).patterns,
        {
            assert(all.take(i + 1).drop_last() =~= all.take(i as int));
            assert(all.take(i + 1).last() == all[i as int]);
            let number: Option<i64> = key_number(self.versions[i].0.as_str());
            let entry: Option<VersionEntry> = VersionEntry::from_json(&self.versions[i].1);
            if let (Some(n), Some(entry)) = (number, entry) {
                let newer = match &best {
                    Some((other, _)) => n >= *other,
                    None => true,
                };
                if newer {
                    best = Some((n, entry));
                }
            }
        }
        assert(all.take(all.len() as int) =~= all);
        if let Some((_, entry)) = best {
            set_member(&mut self.versions, "default", entry.to_json());
        }
    }

    fn ordered_versions(&self) -> (r: Vec<(String, Json)>)
        ensures
            member_views(r@) == ordered(self@.versions),
    {
        let ghost all = self@.versions;
        proof {
            lemma_member_views(self.versions@);
        }
        let mut top: Vec<(String, Json)> = Vec::new();
        if let Some(value) = get(&self.versions, "default") {
            put(&mut top, "default", copy(value));
        }
        let ghost first = member_views(top@);
        let mut numbers: Vec<(String, Json)> = Vec::new();
        let mut rest: Vec<(String, Json)> = Vec::new();
        for i in 0..self.versions.len()
            invariant
                all == self@.versions,
                all.len() == self.versions@.len(),
                forall|j: int|
                    0 <= j < self.versions@.len() ==> #[trigger] all[j] == (
                        self.versions@[j].0@,
                        json_view(self.versions@[j].1),
                    ),
                member_views(numbers@) == numbered(all.take(i as int)),
                member_views(rest@) == leftover(all.take(i as int)),
                forall|j: int|
                    0 <= j < numbers@.len() ==> number_of((#[trigger] numbers@[j]).0@) is Some,
        {
            assert(all.take(i + 1).drop_last() =~= all.take(i as int));
            assert(all.take(i + 1).last() == all[i as int]);
            let key = &self.versions[i].0;
            let value = &self.versions[i].1;
            if !same_text(key.as_str(), "default") {
                match key_number(key.as_str()) {
                    Some(n) => {
                        place_newest_first(&mut numbers, key, n, value);
                    },
                    None => {
                        place_by_key(&mut rest, key, value);
                    },
                }
            }
        }
        assert(all.take(all.len() as int) =~= all);
        let mut out: Vec<(String, Json)> = top;
        append_members(&mut out, numbers);
        append_members(&mut out, rest);
        out
    }

    /// The file as it is written, over several lines and with a trailing
    /// newline. Sorted newest-first, with `default` on top.
    pub fn to_json(&self) -> (r: Result<String>)
        ensures
            agrees_in_view(r, file_text("lookup.json"@, pretty_json(compact(lookup_json(self@))))),
    {
        finished_file("lookup.json", pretty(&self.tree()))
    }

    /// The file as a JSON value, in the order it is written.
    pub fn tree(&self) -> (r: Json)
        ensures
            r@ == lookup_json(self@),
    {
        let mut members: Vec<(String, Json)> = Vec::new();
        assert(self.extra@.take(0) =~= Seq::empty());
        for i in 0..self.extra.len()
            invariant
                member_views(members@) == member_views(self.extra@.take(i as int)),
        {
            assert(self.extra@.take(i + 1).drop_last() =~= self.extra@.take(i as int));
            put(&mut members, self.extra[i].0.as_str(), copy(&self.extra[i].1));
        }
        assert(self.extra@.take(self.extra@.len() as int) =~= self.extra@);
        put(&mut members, "patterns", self.patterns.to_json());
        put(&mut members, "versions", Json::Object(self.ordered_versions()));
        Json::Object(members)
    }

    /// The file that a value spells.
    pub fn from_json(value: &Json) -> (r: Option<Lookup>)
        ensures
            maybe_lookup(r) == lookup_of(value@),
    {
        let members = match value {
            Json::Object(members) => members,
            _ => {
                return None;
            },
        };
        let patterns: Patterns = match get(members, "patterns") {
            Some(value) => match Patterns::from_json(value) {
                Some(patterns) => patterns,
                None => {
                    return None;
                },
            },
            None => {
                return None;
            },
        };
        let versions: Vec<(String, Json)> = match get(members, "versions") {
            Some(value) => match copy(value) {
                Json::Object(versions) => versions,
                _ => {
                    return None;
                },
            },
            None => {
                return None;
            },
        };
        let mut extra: Vec<(String, Json)> = Vec::new();
        let ghost all = member_views(members@);
        proof {
            lemma_member_views(members@);
            assert(all.take(0) =~= Seq::empty());
        }
        for i in 0..members.len()
            invariant
                all == member_views(members@),
                all.len() == members@.len(),
                forall|j: int|
                    0 <= j < members@.len() ==> #[trigger] all[j] == (
                        members@[j].0@,
                        json_view(members@[j].1),
                    ),
                member_views(extra@) == not_modelled(all.take(i as int)),
        {
            assert(all.take(i + 1).drop_last() =~= all.take(i as int));
            assert(all.take(i + 1).last() == all[i as int]);
            let key: &str = members[i].0.as_str();
            if !same_text(key, "patterns") && !same_text(key, "versions") {
                put(&mut extra, key, copy(&members[i].1));
            }
        }
        assert(all.take(all.len() as int) =~= all);
        Some(Lookup { extra, patterns, versions })
    }

    /// Current `bundle_version`, if the file carries one.
    pub fn bundle_version(&self) -> (r: Option<i64>)
        ensures
            r == bundle_of(self@.extra),
    {
        match get(&self.extra, "bundle_version") {
            Some(Json::Integer(n)) => Some(*n),
            _ => None,
        }
    }

    /// Moves `bundle_version` on, so a client cannot be handed the previous
    /// bundle in place of this one.
    ///
    /// The client keeps the highest version it has seen and rejects anything
    /// lower, so this has to advance whenever the contents do. Leaving it alone
    /// after changing an offsets file would let the pre-change bundle be
    /// replayed at a client that had already accepted the new one, with nothing
    /// to tell them apart. Only called when something actually changed, so a
    /// rerun that produces identical output does not churn it.
    pub fn bump_bundle_version(&mut self) -> (r: Option<i64>)
        requires
            bundle_of(old(self)@.extra) != Some(i64::MAX),
        ensures
            final(self)@ == old(self)@.bumped(),
            r == (match bundle_of(old(self)@.extra) {
                Some(n) => Some((n + 1) as i64),
                None => None,
            }),
    {
        match self.bundle_version() {
            Some(n) => {
                set_member(&mut self.extra, "bundle_version", Json::Integer(n + 1));
                Some(n + 1)
            },
            None => None,
        }
    }

    /// The broadcast-version pattern of an architecture.
    pub fn broadcast_pattern(&self, arch: Arch) -> (r: &Signature)
        ensures
            r@ == self@.pattern(arch),
    {
        match arch {
            Arch::X86 => &self.patterns.x86.broadcast_version,
            Arch::X64 => &self.patterns.x64.broadcast_version,
        }
    }

    /// Replaces the broadcast-version pattern of an architecture.
    pub fn set_broadcast_pattern(&mut self, arch: Arch, signature: Signature)
        ensures
            final(self)@ == old(self)@.with_pattern(arch, signature@),
    {
        match arch {
            Arch::X86 => {
                self.patterns.x86.broadcast_version = signature;
            },
            Arch::X64 => {
                self.patterns.x64.broadcast_version = signature;
            },
        }
    }

    /// Moves `bundle_version` on if the bundle changes: the offsets file has
    /// other content, or `lookup.json` is about to be written with other content
    /// than it has. Returns the version the file then carries.
    pub fn settle_bundle_version(
        &mut self,
        change: ContentChange,
        current: &str,
        rendered: &str,
    ) -> (r: Option<i64>)
        requires
            bundle_of(old(self)@.extra) != Some(i64::MAX),
        ensures
            final(self)@ == settled(old(self)@, change, current@, rendered@),
            r == bundle_of(final(self)@.extra),
    {
        let rewritten: ContentChange = classify_change(Some(current), rendered);
        if change != ContentChange::Identical || rewritten != ContentChange::Identical {
            let moved: Option<i64> = self.bump_bundle_version();
            proof {
                if let Some(n) = bundle_of(old(self)@.extra) {
                    the_bundle_version_only_moves_forward(old(self)@.extra, n, Seq::empty());
                }
            }
            moved
        } else {
            self.bundle_version()
        }
    }

    pub fn lookup_entry(&self, broadcast_version: i32) -> (r: Option<VersionEntry>)
        ensures
            maybe_entry(r) == (match member(
                self@.versions,
                decimal(broadcast_version as int),
            ) {
                Some(value) => entry_of(value),
                None => None,
            }),
    {
        let key: String = decimal_text(broadcast_version as i128);
        self.entry(key.as_str())
    }
}

fn append_members(out: &mut Vec<(String, Json)>, more: Vec<(String, Json)>)
    ensures
        member_views(final(out)@) == member_views(old(out)@) + member_views(more@),
{
    proof {
        lemma_member_views(out@);
        lemma_member_views(more@);
    }
    let ghost start = out@;
    let ghost added = more@;
    let mut rest: Vec<(String, Json)> = more;
    out.append(&mut rest);
    proof {
        lemma_member_views(out@);
    }
    assert(member_views(out@) =~= member_views(start) + member_views(added));
}

/// The view of optional patterns, the one for x64 first.
pub open spec fn maybe_patterns(patterns: Option<Patterns>) -> Option<(SigView, SigView)> {
    match patterns {
        Some(patterns) => Some((patterns.x64.broadcast_version@, patterns.x86.broadcast_version@)),
        None => None,
    }
}

/// The view of an optional pattern.
pub open spec fn maybe_pattern(pattern: Option<BroadcastPattern>) -> Option<SigView> {
    match pattern {
        Some(pattern) => Some(pattern.broadcast_version@),
        None => None,
    }
}

impl Patterns {
    /// The patterns that a value spells.
    pub fn from_json(value: &Json) -> (r: Option<Patterns>)
        ensures
            maybe_patterns(r) == patterns_of(value@),
    {
        let parts: (Option<&Json>, Option<&Json>) = match value {
            Json::Object(members) => (get(members, "x64"), get(members, "x86")),
            Json::List(items) => {
                proof {
                    lemma_item_views(items@);
                }
                if items.len() != 2 {
                    return None;
                }
                (Some(&items[0]), Some(&items[1]))
            },
            _ => {
                return None;
            },
        };
        match parts {
            (Some(x64), Some(x86)) => match (
                BroadcastPattern::from_json(x64),
                BroadcastPattern::from_json(x86),
            ) {
                (Some(x64), Some(x86)) => Some(Patterns { x64, x86 }),
                _ => None,
            },
            _ => None,
        }
    }

    pub fn to_json(&self) -> (r: Json)
        ensures
            r@ == patterns_json(self.x64.broadcast_version@, self.x86.broadcast_version@),
    {
        let mut members: Vec<(String, Json)> = Vec::new();
        put(&mut members, "x64", self.x64.to_json());
        put(&mut members, "x86", self.x86.to_json());
        Json::Object(members)
    }
}

impl BroadcastPattern {
    /// The pattern that a value spells.
    pub fn from_json(value: &Json) -> (r: Option<BroadcastPattern>)
        ensures
            maybe_pattern(r) == pattern_of(value@),
    {
        let signature: Option<Signature> = match value {
            Json::Object(members) => match get(members, "broadcastVersion") {
                Some(value) => Signature::from_json(value),
                None => None,
            },
            Json::List(items) => {
                proof {
                    lemma_item_views(items@);
                }
                if items.len() != 1 {
                    return None;
                }
                Signature::from_json(&items[0])
            },
            _ => None,
        };
        match signature {
            Some(broadcast_version) => Some(BroadcastPattern { broadcast_version }),
            None => None,
        }
    }

    pub fn to_json(&self) -> (r: Json)
        ensures
            r@ == pattern_json(self.broadcast_version@),
    {
        let mut members: Vec<(String, Json)> = Vec::new();
        put(&mut members, "broadcastVersion", self.broadcast_version.to_json());
        Json::Object(members)
    }
}

fn place_pair(row: &mut Vec<(String, String)>, key: String, version: String)
    ensures
        pair_views(final(row)@) == placed_pair(pair_views(old(row)@), (key@, version@)),
{
    let ghost before = pair_views(row@);
    let ghost one = (key@, version@);
    let mut at: usize = row.len();
    assert(before.take(at as int) =~= before);
    assert(before.skip(at as int) =~= Seq::empty());
    assert(placed_pair(before.take(at as int), one) + before.skip(at as int) =~= placed_pair(
        before,
        one,
    ));
    while at > 0
        invariant
            at <= row@.len(),
            pair_views(row@) == before,
            one == (key@, version@),
            placed_pair(before.take(at as int), one) + before.skip(at as int) == placed_pair(
                before,
                one,
            ),
        ensures
            at <= row@.len(),
            pair_views(row@) == before,
            placed_pair(before.take(at as int), one) + before.skip(at as int) == placed_pair(
                before,
                one,
            ),
            placed_pair(before.take(at as int), one) == before.take(at as int).push(one),
        decreases at,
    {
        assert(before.take(at as int).last() == before[at - 1]);
        assert(before.take(at as int).drop_last() =~= before.take(at - 1));
        assert(before[at - 1] == (row@[at - 1].0@, row@[at - 1].1@));
        if !comes_before(key.as_str(), row[at - 1].0.as_str()) {
            break;
        }
        assert(placed_pair(before.take(at - 1), one).push(before[at - 1]) + before.skip(at as int)
            =~= placed_pair(before.take(at - 1), one) + before.skip(at - 1));
        at -= 1;
    }
    row.insert(at, (key, version));
    assert(pair_views(row@) =~= before.take(at as int).push(one) + before.skip(at as int));
}

/// Broadcast-version keys with the version each of them names, of those that
/// serve a file, sorted by key, for the run report.
pub fn versions_serving(lookup: &Lookup, file: &str) -> (r: Vec<(String, String)>)
    ensures
        pair_views(r@) == serving(member_views(lookup.versions@), file@),
{
    let ghost all = member_views(lookup.versions@);
    proof {
        lemma_member_views(lookup.versions@);
    }
    let mut row: Vec<(String, String)> = Vec::new();
    assert(pair_views(row@) =~= Seq::empty());
    for i in 0..lookup.versions.len()
        invariant
            all == member_views(lookup.versions@),
            all.len() == lookup.versions@.len(),
            forall|j: int|
                0 <= j < lookup.versions@.len() ==> #[trigger] all[j] == (
                    lookup.versions@[j].0@,
                    json_view(lookup.versions@[j].1),
                ),
            pair_views(row@) == serving(all.take(i as int), file@),
    {
        assert(all.take(i + 1).drop_last() =~= all.take(i as int));
        assert(all.take(i + 1).last() == all[i as int]);
        if let Some(entry) = VersionEntry::from_json(&lookup.versions[i].1) {
            if same_text(entry.file.as_str(), file) {
                place_pair(&mut row, lookup.versions[i].0.clone(), entry.version);
            }
        }
    }
    assert(all.take(all.len() as int) =~= all);
    row
}

/// Line endings and trailing whitespace are not content.
fn normalise(text: &str) -> (r: Vec<char>)
    ensures
        r@ == content(text@),
{
    let chars: Vec<char> = chars_of(text);
    let mut out: Vec<char> = Vec::new();
    let mut i: usize = 0;
    while i < chars.len()
        invariant
            i <= chars@.len(),
            chars@ == text@,
            out@ == unix_lines(text@.take(i as int)),
            i > 0 && text@[i - 1] == '\r' ==> out@.len() > 0 && out@.last() == '\r'
                && out@.drop_last() == unix_lines(text@.take(i - 1)),
        decreases chars@.len() - i,
    {
        let c: char = chars[i];
        assert(text@.take(i + 1).drop_last() =~= text@.take(i as int));
        assert(text@.take(i + 1).last() == c);
        if c == '\n' && i > 0 && chars[i - 1] == '\r' {
            assert(text@.take(i + 1).take(i - 1) =~= text@.take(i - 1));
            assert(text@.take(i + 1)[i - 1] == '\r');
            let _ = out.pop();
            out.push('\n');
        } else {
            if i > 0 {
                assert(text@.take(i + 1)[i - 1] == text@[i - 1]);
            }
            out.push(c);
            assert(out@.drop_last() =~= unix_lines(text@.take(i as int)));
        }
        i += 1;
    }
    assert(text@.take(text@.len() as int) =~= text@);
    let kept = trimmed_end(out.as_slice());
    vstd::slice::slice_to_vec(kept)
}

/// Compares freshly generated JSON against what is already there.
pub fn classify_change(existing: Option<&str>, generated: &str) -> (r: ContentChange)
    ensures
        r == change_between(
            match existing {
                Some(text) => Some(text@),
                None => None,
            },
            generated@,
        ),
{
    match existing {
        None => ContentChange::New,
        Some(text) => {
            let old_text: Vec<char> = normalise(text);
            let new_text: Vec<char> = normalise(generated);
            let old_string: String = crate::text::string_of(old_text.as_slice());
            let new_string: String = crate::text::string_of(new_text.as_slice());
            if old_string == new_string {
                ContentChange::Identical
            } else {
                ContentChange::Changed
            }
        },
    }
}

/// An entry that was written is read as the same entry.
pub proof fn entries_round_trip(entry: EntryView)
    ensures
        entry_of(entry_json(entry)) == Some(entry),
{
    reveal_strlit("version");
    reveal_strlit("file");
    reveal_strlit("offsetsVersion");
    let m = entry_json(entry)->Object_0;
    assert("version"@.len() == 7 && "file"@.len() == 4 && "offsetsVersion"@.len() == 14);
    assert(m[0].0 == "version"@ && m[1].0 == "file"@ && m[2].0 == "offsetsVersion"@);
    lemma_place(m, "version"@, 0);
    lemma_place(m, "file"@, 0);
    lemma_place(m, "offsetsVersion"@, 0);
}

/// Moving entries keeps every key in its place.
proof fn lemma_moved_places(versions: MembersView, entry: EntryView, key: Seq<char>)
    ensures
        place(moved(versions, entry), key) == place(versions, key),
{
    let after = moved(versions, entry);
    assert forall|i: int| 0 <= i < versions.len() implies (#[trigger] after[i]).0
        == versions[i].0 by {}
    lemma_place(versions, key, 0);
    lemma_place(after, key, 0);
    match (place(versions, key), place(after, key)) {
        (Some(i), Some(j)) => {
            assert(after[i].0 == key);
            assert(versions[j].0 == key);
        },
        (Some(i), None) => {
            assert(after[i].0 == key);
        },
        (None, Some(j)) => {
            assert(versions[j].0 == key);
        },
        (None, None) => {},
    }
}

/// The key of a broadcast version is a number, and never `default`.
pub proof fn lemma_broadcast_key(broadcast_version: i32)
    ensures
        number_of(decimal(broadcast_version as int)) == Some(broadcast_version as int),
        decimal(broadcast_version as int) != "default"@,
{
    reveal_strlit("default");
    decimal_round_trips(broadcast_version as int, i64::MIN as int, i64::MAX as int);
    assert("default"@[0] == 'd');
}

/// Recording a build sets the entry of its broadcast version and of every other
/// key that serves the file; all other keys keep what they had, `default` apart.
pub proof fn every_key_serving_a_file_moves_together(
    versions: MembersView,
    broadcast_version: i32,
    game_version: Seq<char>,
    file: Seq<char>,
    change: ContentChange,
    key: Seq<char>,
)
    requires
        key != "default"@,
    ensures
        ({
            let entry = recorded_entry(versions, game_version, file, change);
            let after = upserted(versions, broadcast_version, game_version, file, change);
            let moves = key == decimal(broadcast_version as int) || (member(versions, key) is Some
                && serves((key, member(versions, key)->0), file));
            &&& moves ==> member(after, key) == Some(entry_json(entry)) && entry_of(
                member(after, key)->0,
            ) == Some(entry)
            &&& !moves ==> member(after, key) == member(versions, key)
        }),
{
    let entry = recorded_entry(versions, game_version, file, change);
    let broadcast = decimal(broadcast_version as int);
    let shifted = moved(versions, entry);
    let named = with_member(shifted, broadcast, entry_json(entry));
    entries_round_trip(entry);
    lemma_broadcast_key(broadcast_version);
    lemma_moved_places(versions, entry, key);
    lemma_place(versions, key, 0);
    setting_a_member(shifted, broadcast, entry_json(entry), key);
    if let Some((_, newest_entry)) = newest(named) {
        setting_a_member(named, "default"@, entry_json(newest_entry), key);
    }
    if let Some(i) = place(versions, key) {
        assert(shifted[i] == (if versions[i].0 != "default"@ && serves(versions[i], entry.file) {
            (versions[i].0, entry_json(entry))
        } else {
            versions[i]
        }));
    }
}

/// The counter of a file moves exactly when its content does: identical content
/// leaves it alone, anything else moves it on by one, and a file that was never
/// published starts at one.
pub proof fn the_counter_moves_with_the_content(
    versions: MembersView,
    game_version: Seq<char>,
    file: Seq<char>,
    change: ContentChange,
)
    requires
        next_version(change, published(versions, file)) <= i64::MAX,
    ensures
        match published(versions, file) {
            None => recorded_entry(versions, game_version, file, change).offsets_version == 1,
            Some(n) => recorded_entry(versions, game_version, file, change).offsets_version == n
                + (if change is Identical {
                0int
            } else {
                1int
            }),
        },
{
}

/// The newest entry is one of the entries, and no entry has a higher number.
pub proof fn the_newest_entry_has_the_highest_number(versions: MembersView)
    ensures
        match newest(versions) {
            Some((n, entry)) => {
                &&& exists|i: int|
                    0 <= i < versions.len() && number_of((#[trigger] versions[i]).0) == Some(n)
                        && entry_of(versions[i].1) == Some(entry)
                &&& forall|i: int|
                    0 <= i < versions.len() && number_of((#[trigger] versions[i]).0) is Some
                        && entry_of(versions[i].1) is Some ==> number_of(versions[i].0)->0 <= n
            },
            None => forall|i: int|
                0 <= i < versions.len() ==> number_of((#[trigger] versions[i]).0) is None
                    || entry_of(versions[i].1) is None,
        },
    decreases versions.len(),
{
    if versions.len() > 0 {
        let shorter = versions.drop_last();
        the_newest_entry_has_the_highest_number(shorter);
        let last = versions.len() - 1;
        assert forall|i: int| 0 <= i < last implies #[trigger] versions[i] == shorter[i] by {}
        if let Some((n, entry)) = newest(shorter) {
            let i = choose|i: int|
                0 <= i < shorter.len() && number_of((#[trigger] shorter[i]).0) == Some(n)
                    && entry_of(shorter[i].1) == Some(entry);
            assert(versions[i] == shorter[i]);
        }
        assert(versions[last] == versions.last());
    }
}

/// After a build has been recorded, `default` is the entry with the highest
/// number of all.
pub proof fn default_points_at_the_newest_build(
    versions: MembersView,
    broadcast_version: i32,
    game_version: Seq<char>,
    file: Seq<char>,
    change: ContentChange,
)
    ensures
        ({
            let after = upserted(versions, broadcast_version, game_version, file, change);
            match newest(after) {
                Some((n, best)) => n >= broadcast_version && member(after, "default"@) == Some(
                    entry_json(best),
                ),
                None => false,
            }
        }),
{
    let entry = recorded_entry(versions, game_version, file, change);
    let broadcast = decimal(broadcast_version as int);
    let named = with_member(moved(versions, entry), broadcast, entry_json(entry));
    entries_round_trip(entry);
    lemma_broadcast_key(broadcast_version);
    setting_a_member(moved(versions, entry), broadcast, entry_json(entry), broadcast);
    the_newest_entry_has_the_highest_number(named);
    lemma_place(named, broadcast, 0);
    let i = place(named, broadcast)->0;
    assert(named[i].0 == broadcast);
    if let Some((_, best)) = newest(named) {
        setting_a_member(named, "default"@, entry_json(best), "default"@);
        lemma_default_is_no_build(named, entry_json(best));
    }
}

proof fn lemma_no_number()
    ensures
        number_of("default"@) is None,
{
    reveal_strlit("default");
    let d = "default"@;
    assert(d[0] == 'd');
    assert(d.len() == 7);
    lemma_digits_value_grows(d, 10, 1);
    let first = d.take(1);
    assert(first.last() == 'd');
    assert(digit_value('d', 10) is None);
    assert(digits_value(first, 10) is None);
}

/// Setting `default` does not change which build is the newest.
proof fn lemma_default_is_no_build(versions: MembersView, value: JsonView)
    ensures
        newest(with_member(versions, "default"@, value)) == newest(versions),
    decreases versions.len(),
{
    lemma_no_number();
    lemma_place(versions, "default"@, 0);
    let after = with_member(versions, "default"@, value);
    match place(versions, "default"@) {
        None => {
            assert(after.drop_last() =~= versions);
        },
        Some(i) => {
            let shorter = versions.drop_last();
            lemma_place(shorter, "default"@, 0);
            if i == versions.len() - 1 {
                assert(after.drop_last() =~= shorter);
            } else {
                assert(shorter[i].0 == "default"@);
                if let Some(j) = place(shorter, "default"@) {
                    assert(versions[j].0 == "default"@);
                    assert(j == i);
                }
                lemma_default_is_no_build(shorter, value);
                assert(after.drop_last() =~= with_member(shorter, "default"@, value));
                assert(after.last() == versions.last());
            }
        },
    }
}

proof fn lemma_distinct_kept(members: MembersView, key: Seq<char>, value: JsonView)
    requires
        distinct(members),
    ensures
        distinct(with_member(members, key, value)),
{
    let after = with_member(members, key, value);
    lemma_place(members, key, 0);
    assert forall|i: int, j: int| 0 <= i < j < after.len() implies (#[trigger] after[i]).0 != (
    #[trigger] after[j]).0 by {
        match place(members, key) {
            Some(k) => {
                assert(after[i].0 == members[i].0 && after[j].0 == members[j].0);
            },
            None => {
                if j == members.len() {
                    assert(members[i].0 != key);
                } else {
                    assert(after[i] == members[i] && after[j] == members[j]);
                }
            },
        }
    }
}

/// Setting a member to what it is changes nothing.
proof fn lemma_set_same(members: MembersView, key: Seq<char>, value: JsonView)
    requires
        member(members, key) == Some(value),
    ensures
        with_member(members, key, value) == members,
{
    lemma_place(members, key, 0);
    assert(with_member(members, key, value) =~= members);
}

/// Where every entry for a file has the same counter, that is the one published.
proof fn lemma_published_is(versions: MembersView, file: Seq<char>, n: i64)
    requires
        forall|i: int|
            0 <= i < versions.len() && serves(#[trigger] versions[i], file) ==> entry_of(
                versions[i].1,
            )->0.offsets_version == n,
    ensures
        published(versions, file) is Some ==> published(versions, file) == Some(n),
        (exists|i: int| 0 <= i < versions.len() && serves(#[trigger] versions[i], file))
            ==> published(versions, file) is Some,
    decreases versions.len(),
{
    if versions.len() > 0 {
        let shorter = versions.drop_last();
        assert forall|i: int|
            0 <= i < shorter.len() && serves(#[trigger] shorter[i], file) implies entry_of(
            shorter[i].1,
        )->0.offsets_version == n by {
            assert(versions[i] == shorter[i]);
        }
        lemma_published_is(shorter, file, n);
        assert(versions.last() == versions[versions.len() - 1]);
        if exists|i: int| 0 <= i < versions.len() && serves(#[trigger] versions[i], file) {
            let i = choose|i: int| 0 <= i < versions.len() && serves(#[trigger] versions[i], file);
            if i < shorter.len() {
                assert(serves(shorter[i], file));
            }
        }
    }
}

/// Recording the same build again with identical content changes nothing, so a
/// rerun produces no diff.
#[verifier::rlimit(40)]
pub proof fn a_rerun_changes_nothing(
    versions: MembersView,
    broadcast_version: i32,
    game_version: Seq<char>,
    file: Seq<char>,
    change: ContentChange,
)
    requires
        distinct(versions),
        next_version(change, published(versions, file)) <= i64::MAX,
    ensures
        ({
            let once = upserted(versions, broadcast_version, game_version, file, change);
            upserted(once, broadcast_version, game_version, file, ContentChange::Identical) == once
        }),
{
    let entry = recorded_entry(versions, game_version, file, change);
    let written = entry_json(entry);
    let broadcast = decimal(broadcast_version as int);
    let shifted = moved(versions, entry);
    let named = with_member(shifted, broadcast, written);
    let once = upserted(versions, broadcast_version, game_version, file, change);
    entries_round_trip(entry);
    lemma_broadcast_key(broadcast_version);
    lemma_no_number();
    assert(distinct(shifted)) by {
        assert forall|i: int, j: int| 0 <= i < j < shifted.len() implies (#[trigger] shifted[i]).0
            != (#[trigger] shifted[j]).0 by {
            assert(versions[i].0 != versions[j].0);
        }
    }
    lemma_distinct_kept(shifted, broadcast, written);
    default_points_at_the_newest_build(versions, broadcast_version, game_version, file, change);
    the_newest_entry_has_the_highest_number(named);
    setting_a_member(shifted, broadcast, written, broadcast);
    lemma_place(shifted, broadcast, 0);
    lemma_place(named, broadcast, 0);
    assert(named[place(named, broadcast)->0].0 == broadcast);
    if let Some((_, best)) = newest(named) {
        lemma_distinct_kept(named, "default"@, entry_json(best));
        lemma_default_is_no_build(named, entry_json(best));
        setting_a_member(named, "default"@, entry_json(best), broadcast);
        entries_round_trip(best);
        lemma_place(named, "default"@, 0);
        // Every entry for the file is the one that was written.
        assert forall|i: int| 0 <= i < named.len() && named[i].0 != "default"@ && serves(
            #[trigger] named[i],
            file,
        ) implies named[i].1 == written by {
            if named[i].0 != broadcast {
                assert(i < shifted.len());
                assert(named[i] == shifted[i]);
                assert(shifted[i] == (if versions[i].0 != "default"@ && serves(versions[i], file) {
                    (versions[i].0, written)
                } else {
                    versions[i]
                }));
            } else {
                lemma_found(named, i);
            }
        }
        assert(best.file == file ==> best == entry) by {
            let k = choose|k: int|
                0 <= k < named.len() && number_of((#[trigger] named[k]).0) is Some && entry_of(
                    named[k].1,
                ) == Some(best);
            if best.file == file {
                assert(serves(named[k], file));
            }
        }
        assert forall|i: int| 0 <= i < once.len() && serves(#[trigger] once[i], file) implies once[i].1
            == written by {
            if once[i].0 == "default"@ {
                lemma_found(once, i);
            } else {
                assert(i < named.len());
                assert(once[i] == named[i]);
            }
        }
        lemma_published_is(once, file, entry.offsets_version);
        lemma_place(once, broadcast, 0);
        assert(serves(once[place(once, broadcast)->0], file));
        assert(recorded_entry(once, game_version, file, ContentChange::Identical) == entry);
        assert(moved(once, entry) =~= once);
        lemma_set_same(once, broadcast, written);
        lemma_set_same(once, "default"@, entry_json(best));
    }
}

proof fn lemma_placed_newest_first(row: MembersView, one: (Seq<char>, JsonView))
    requires
        number_of(one.0) is Some,
        forall|i: int| 0 <= i < row.len() ==> number_of((#[trigger] row[i]).0) is Some,
        forall|i: int, j: int|
            0 <= i < j < row.len() ==> number_of((#[trigger] row[i]).0)->0 >= number_of(
                (#[trigger] row[j]).0,
            )->0,
    ensures
        ({
            let after = placed_newest_first(row, one);
            &&& after.to_multiset() == row.to_multiset().insert(one)
            &&& forall|i: int| 0 <= i < after.len() ==> number_of((#[trigger] after[i]).0) is Some
            &&& forall|i: int, j: int|
                0 <= i < j < after.len() ==> number_of((#[trigger] after[i]).0)->0 >= number_of(
                    (#[trigger] after[j]).0,
                )->0
            &&& forall|i: int|
                0 <= i < after.len() ==> after[i] == one || row.contains(#[trigger] after[i])
        }),
    decreases row.len(),
{
    broadcast use vstd::seq_lib::group_to_multiset_ensures;

    let after = placed_newest_first(row, one);
    if row.len() > 0 && number_of(one.0)->0 > number_of(row.last().0)->0 {
        let shorter = row.drop_last();
        let inner = placed_newest_first(shorter, one);
        assert forall|i: int| 0 <= i < shorter.len() implies row[i] == #[trigger] shorter[i] by {}
        lemma_placed_newest_first(shorter, one);
        assert(row =~= shorter.push(row.last()));
        assert(after.to_multiset() =~= row.to_multiset().insert(one));
        assert forall|i: int| 0 <= i < after.len() implies (after[i] == one || row.contains(
            #[trigger] after[i],
        )) by {
            if i < inner.len() {
                assert(after[i] == inner[i]);
                if inner[i] != one {
                    let k = choose|k: int| 0 <= k < shorter.len() && shorter[k] == inner[i];
                    assert(row[k] == after[i]);
                }
            } else {
                assert(row[row.len() - 1] == after[i]);
            }
        }
        assert forall|i: int, j: int| 0 <= i < j < after.len() implies number_of(
            (#[trigger] after[i]).0,
        )->0 >= number_of((#[trigger] after[j]).0)->0 by {
            if j < inner.len() {
                assert(after[i] == inner[i] && after[j] == inner[j]);
            } else {
                assert(after[i] == inner[i] && after[j] == row.last());
                if inner[i] != one {
                    let k = choose|k: int| 0 <= k < shorter.len() && shorter[k] == inner[i];
                    assert(row[k] == inner[i]);
                    assert(row[row.len() - 1] == row.last());
                }
            }
        }
    } else {
        assert forall|i: int| 0 <= i < after.len() implies (after[i] == one || row.contains(
            #[trigger] after[i],
        )) by {
            if i < row.len() {
                assert(row[i] == after[i]);
            }
        }
        assert forall|i: int, j: int| 0 <= i < j < after.len() implies number_of(
            (#[trigger] after[i]).0,
        )->0 >= number_of((#[trigger] after[j]).0)->0 by {
            assert(after[i] == row[i]);
            if j == row.len() {
                assert(row[row.len() - 1] == row.last());
                if i < row.len() - 1 {
                    assert(number_of(row[i].0)->0 >= number_of(row[row.len() - 1].0)->0);
                }
            } else {
                assert(after[j] == row[j]);
            }
        }
    }
}

/// The keys of these members never fall.
pub open spec fn rising(row: MembersView) -> bool {
    forall|i: int, j: int|
        0 <= i < j < row.len() ==> !precedes((#[trigger] row[j]).0, (#[trigger] row[i]).0)
}

/// A member put in its place leaves the row sorted.
proof fn lemma_placed_in_order(row: MembersView, one: (Seq<char>, JsonView))
    requires
        rising(row),
    ensures
        rising(placed_by_key(row, one)),
        forall|i: int|
            0 <= i < placed_by_key(row, one).len() ==> (#[trigger] placed_by_key(row, one)[i])
                == one || row.contains(placed_by_key(row, one)[i]),
    decreases row.len(),
{
    let after = placed_by_key(row, one);
    if row.len() > 0 {
        let last = row.len() - 1;
        if precedes(one.0, row.last().0) {
            let shorter = row.drop_last();
            let inner = placed_by_key(shorter, one);
            assert(rising(shorter)) by {
                assert forall|i: int, j: int| 0 <= i < j < shorter.len() implies !precedes(
                    (#[trigger] shorter[j]).0,
                    (#[trigger] shorter[i]).0,
                ) by {
                    assert(!precedes(row[j].0, row[i].0));
                }
            }
            lemma_placed_in_order(shorter, one);
            assert(!precedes(row.last().0, one.0)) by {
                if precedes(row.last().0, one.0) {
                    lemma_precedes_onwards(one.0, row.last().0, one.0);
                    lemma_precedes_not_itself(one.0);
                }
            }
            assert forall|i: int| 0 <= i < inner.len() implies ((#[trigger] inner[i]) == one
                || row.contains(inner[i])) && !precedes(row.last().0, inner[i].0) by {
                if inner[i] != one {
                    let k = choose|k: int| 0 <= k < shorter.len() && shorter[k] == inner[i];
                    assert(row[k] == inner[i]);
                    assert(!precedes(row[last].0, row[k].0));
                }
            }
            assert forall|i: int| 0 <= i < after.len() implies ((#[trigger] after[i]) == one
                || row.contains(after[i])) by {
                if i < inner.len() {
                    assert(after[i] == inner[i]);
                } else {
                    assert(row[last] == after[i]);
                }
            }
            assert forall|i: int, j: int| 0 <= i < j < after.len() implies !precedes(
                (#[trigger] after[j]).0,
                (#[trigger] after[i]).0,
            ) by {
                assert(after[i] == inner[i]);
                if j < inner.len() {
                    assert(after[j] == inner[j]);
                }
            }
        } else {
            assert forall|i: int| 0 <= i < row.len() implies !precedes(
                one.0,
                (#[trigger] row[i]).0,
            ) by {
                if i < last && precedes(one.0, row[i].0) {
                    assert(!precedes(row[last].0, row[i].0));
                    lemma_precedes_either_way(row[last].0, row[i].0);
                    if row[last].0 != row[i].0 {
                        lemma_precedes_onwards(one.0, row[i].0, row[last].0);
                    }
                }
            }
            assert forall|i: int| 0 <= i < after.len() implies ((#[trigger] after[i]) == one
                || row.contains(after[i])) by {
                if i < row.len() {
                    assert(row[i] == after[i]);
                }
            }
            assert forall|i: int, j: int| 0 <= i < j < after.len() implies !precedes(
                (#[trigger] after[j]).0,
                (#[trigger] after[i]).0,
            ) by {
                assert(after[i] == row[i]);
                if j < row.len() {
                    assert(after[j] == row[j]);
                }
            }
        }
    }
}

/// The keys that are no numbers are written last, in ascending order: none
/// stands behind one that it comes before, and where no two keys are the same,
/// each comes before all that follow.
pub proof fn other_keys_are_written_in_order(versions: MembersView)
    ensures
        rising(leftover(versions)),
        forall|i: int|
            0 <= i < leftover(versions).len() ==> (#[trigger] leftover(versions)[i]).0
                != "default"@ && number_of(leftover(versions)[i].0) is None && versions.contains(
                leftover(versions)[i],
            ),
        distinct(versions) ==> ascending(
            leftover(versions).map_values(|one: (Seq<char>, JsonView)| one.0),
        ),
{
    lemma_leftover(versions);
    if distinct(versions) {
        writing_keeps_every_key(versions);
        lemma_keys_stay_apart(versions);
        let row = leftover(versions);
        let all = ordered(versions);
        let keys = row.map_values(|one: (Seq<char>, JsonView)| one.0);
        let skipped = all.len() - row.len();
        assert forall|i: int, j: int| 0 <= i < j < keys.len() implies precedes(
            #[trigger] keys[i],
            #[trigger] keys[j],
        ) by {
            assert(all[skipped + i] == row[i]);
            assert(all[skipped + j] == row[j]);
            assert(all[skipped + i].0 != all[skipped + j].0);
            assert(!precedes(row[j].0, row[i].0));
            lemma_precedes_either_way(row[i].0, row[j].0);
        }
    }
}

proof fn lemma_leftover(versions: MembersView)
    ensures
        rising(leftover(versions)),
        forall|i: int|
            0 <= i < leftover(versions).len() ==> (#[trigger] leftover(versions)[i]).0
                != "default"@ && number_of(leftover(versions)[i].0) is None && versions.contains(
                leftover(versions)[i],
            ),
    decreases versions.len(),
{
    if versions.len() > 0 {
        let shorter = versions.drop_last();
        let row = leftover(shorter);
        let after = leftover(versions);
        lemma_leftover(shorter);
        lemma_placed_in_order(row, versions.last());
        assert forall|i: int| 0 <= i < after.len() implies (#[trigger] after[i]).0 != "default"@
            && number_of(after[i].0) is None && versions.contains(after[i]) by {
            if row.contains(after[i]) {
                let k = choose|k: int| 0 <= k < row.len() && row[k] == after[i];
                assert(shorter.contains(row[k]));
                let n = choose|n: int| 0 <= n < shorter.len() && shorter[n] == row[k];
                assert(versions[n] == after[i]);
            } else {
                assert(versions[versions.len() - 1] == after[i]);
            }
        }
    }
}

proof fn lemma_placed_by_key(row: MembersView, one: (Seq<char>, JsonView))
    ensures
        placed_by_key(row, one).to_multiset() == row.to_multiset().insert(one),
    decreases row.len(),
{
    broadcast use vstd::seq_lib::group_to_multiset_ensures;

    if row.len() > 0 && precedes(one.0, row.last().0) {
        let shorter = row.drop_last();
        lemma_placed_by_key(shorter, one);
        assert(row =~= shorter.push(row.last()));
        assert(placed_by_key(row, one).to_multiset() =~= row.to_multiset().insert(one));
    }
}

/// What is written for the numbered keys is in order, newest first.
pub proof fn versions_are_written_newest_first(versions: MembersView)
    ensures
        forall|i: int|
            0 <= i < numbered(versions).len() ==> number_of((#[trigger] numbered(versions)[i]).0)
                is Some,
        forall|i: int, j: int|
            0 <= i < j < numbered(versions).len() ==> number_of(
                (#[trigger] numbered(versions)[i]).0,
            )->0 >= number_of((#[trigger] numbered(versions)[j]).0)->0,
    decreases versions.len(),
{
    if versions.len() > 0 {
        versions_are_written_newest_first(versions.drop_last());
        if versions.last().0 != "default"@ && number_of(versions.last().0) is Some {
            lemma_placed_newest_first(numbered(versions.drop_last()), versions.last());
        }
    }
}

/// The members whose key is `default`.
spec fn defaults(versions: MembersView) -> MembersView {
    versions.filter(|one: (Seq<char>, JsonView)| one.0 == "default"@)
}

proof fn lemma_parts(versions: MembersView)
    ensures
        versions.to_multiset() == defaults(versions).to_multiset().add(
            numbered(versions).to_multiset(),
        ).add(leftover(versions).to_multiset()),
    decreases versions.len(),
{
    broadcast use vstd::seq_lib::group_to_multiset_ensures;

    reveal(Seq::filter);
    if versions.len() > 0 {
        let shorter = versions.drop_last();
        let last = versions.last();
        lemma_parts(shorter);
        assert(versions =~= shorter.push(last));
        versions_are_written_newest_first(shorter);
        if last.0 != "default"@ {
            if number_of(last.0) is Some {
                lemma_placed_newest_first(numbered(shorter), last);
            } else {
                lemma_placed_by_key(leftover(shorter), last);
            }
        }
        assert(versions.to_multiset() =~= defaults(versions).to_multiset().add(
            numbered(versions).to_multiset(),
        ).add(leftover(versions).to_multiset()));
    } else {
        assert(defaults(versions) =~= Seq::empty());
        assert(versions.to_multiset() =~= defaults(versions).to_multiset().add(
            numbered(versions).to_multiset(),
        ).add(leftover(versions).to_multiset()));
    }
}

proof fn lemma_one_default(versions: MembersView)
    requires
        distinct(versions),
    ensures
        defaults(versions) == (match member(versions, "default"@) {
            Some(value) => Seq::empty().push(("default"@, value)),
            None => Seq::empty(),
        }),
    decreases versions.len(),
{
    reveal(Seq::filter);
    lemma_place(versions, "default"@, 0);
    if versions.len() > 0 {
        let shorter = versions.drop_last();
        assert(distinct(shorter)) by {
            assert forall|i: int, j: int| 0 <= i < j < shorter.len() implies (
            #[trigger] shorter[i]).0 != (#[trigger] shorter[j]).0 by {
                assert(versions[i].0 != versions[j].0);
            }
        }
        lemma_one_default(shorter);
        lemma_place(shorter, "default"@, 0);
        if versions.last().0 == "default"@ {
            lemma_found(versions, versions.len() - 1);
            if let Some(i) = place(shorter, "default"@) {
                assert(versions[i].0 == "default"@);
                assert(versions[i].0 != versions[versions.len() - 1].0);
            }
            assert(defaults(shorter) =~= Seq::empty());
        } else {
            match place(versions, "default"@) {
                Some(i) => {
                    assert(shorter[i] == versions[i]);
                    lemma_found(shorter, i);
                },
                None => {
                    if let Some(j) = place(shorter, "default"@) {
                        assert(versions[j].0 == "default"@);
                    }
                },
            }
        }
    }
}

/// Writing the file neither loses a key nor invents one: what is written for
/// the versions is what they hold, in another order.
pub proof fn writing_keeps_every_key(versions: MembersView)
    requires
        distinct(versions),
    ensures
        ordered(versions).to_multiset() == versions.to_multiset(),
{
    broadcast use vstd::seq_lib::group_to_multiset_ensures;

    lemma_parts(versions);
    lemma_one_default(versions);
    let top = defaults(versions);
    let a = numbered(versions);
    let b = leftover(versions);
    vstd::seq_lib::lemma_multiset_commutative(top, a);
    vstd::seq_lib::lemma_multiset_commutative(top + a, b);
    assert(ordered(versions) == top + a + b);
    assert(ordered(versions).to_multiset() =~= versions.to_multiset());
}

/// What is written for the versions has no key twice either.
proof fn lemma_keys_stay_apart(versions: MembersView)
    requires
        distinct(versions),
    ensures
        distinct(ordered(versions)),
{
    broadcast use vstd::seq_lib::group_to_multiset_ensures;

    writing_keeps_every_key(versions);
    let all = ordered(versions);
    assert(versions.no_duplicates()) by {
        assert forall|i: int, j: int|
            0 <= i < versions.len() && 0 <= j < versions.len() && i != j implies versions[i]
            != versions[j] by {
            if i < j {
                assert(versions[i].0 != versions[j].0);
            } else {
                assert(versions[j].0 != versions[i].0);
            }
        }
    }
    versions.lemma_multiset_has_no_duplicates();
    assert forall|x: (Seq<char>, JsonView)| all.to_multiset().contains(x) implies all.to_multiset().count(
        x,
    ) == 1 by {}
    all.lemma_multiset_has_no_duplicates_conv();
    assert forall|i: int, j: int| 0 <= i < j < all.len() implies (#[trigger] all[i]).0 != (
    #[trigger] all[j]).0 by {
        if all[i].0 == all[j].0 {
            assert(all.to_multiset().contains(all[i]));
            assert(all.to_multiset().contains(all[j]));
            assert(versions.contains(all[i]));
            assert(versions.contains(all[j]));
            let m = choose|m: int| 0 <= m < versions.len() && versions[m] == all[i];
            let n = choose|n: int| 0 <= n < versions.len() && versions[n] == all[j];
            if m < n {
                assert(versions[m].0 != versions[n].0);
            } else if n < m {
                assert(versions[n].0 != versions[m].0);
            }
            assert(all[i] == all[j]);
        }
    }
}

/// Every version is found under its key in what is written, with the value it
/// had, and nothing else is: the entries are the same, and no key occurs twice.
pub proof fn written_versions_have_the_same_entries(versions: MembersView, key: Seq<char>)
    requires
        distinct(versions),
    ensures
        distinct(ordered(versions)),
        member(ordered(versions), key) == member(versions, key),
{
    broadcast use vstd::seq_lib::group_to_multiset_ensures;

    lemma_keys_stay_apart(versions);
    writing_keeps_every_key(versions);
    let all = ordered(versions);
    lemma_place(versions, key, 0);
    lemma_place(all, key, 0);
    if let Some(i) = place(versions, key) {
        assert(versions.to_multiset().contains(versions[i]));
        assert(all.contains(versions[i]));
        let j = choose|j: int| 0 <= j < all.len() && all[j] == versions[i];
        lemma_found(all, j);
    } else if let Some(j) = place(all, key) {
        assert(all.to_multiset().contains(all[j]));
        assert(versions.contains(all[j]));
        let i = choose|i: int| 0 <= i < versions.len() && versions[i] == all[j];
        assert(versions[i].0 == key);
    }
}

/// Recording a build keeps every key unique, and so does moving the bundle
/// version on.
pub proof fn recording_keeps_keys_unique(
    lookup: LookupView,
    broadcast_version: i32,
    game_version: Seq<char>,
    file: Seq<char>,
    change: ContentChange,
)
    ensures
        distinct(lookup.versions) ==> distinct(
            upserted(lookup.versions, broadcast_version, game_version, file, change),
        ),
        distinct(lookup.versions) ==> distinct(refreshed(lookup.versions)),
        distinct(lookup.extra) ==> distinct(lookup.bumped().extra),
{
    if distinct(lookup.versions) {
        let versions = lookup.versions;
        let entry = recorded_entry(versions, game_version, file, change);
        let shifted = moved(versions, entry);
        assert forall|i: int, j: int| 0 <= i < j < shifted.len() implies (#[trigger] shifted[i]).0
            != (#[trigger] shifted[j]).0 by {
            assert(versions[i].0 != versions[j].0);
        }
        let named = with_member(shifted, decimal(broadcast_version as int), entry_json(entry));
        lemma_distinct_kept(shifted, decimal(broadcast_version as int), entry_json(entry));
        if let Some((_, best)) = newest(named) {
            lemma_distinct_kept(named, "default"@, entry_json(best));
        }
        if let Some((_, best)) = newest(versions) {
            lemma_distinct_kept(versions, "default"@, entry_json(best));
        }
    }
    if distinct(lookup.extra) {
        if let Some(n) = bundle_of(lookup.extra) {
            lemma_distinct_kept(
                lookup.extra,
                "bundle_version"@,
                JsonView::Integer((n + 1) as i64),
            );
        }
    }
}

proof fn lemma_patterns_round_trip(x64: SigView, x86: SigView)
    ensures
        patterns_of(patterns_json(x64, x86)) == Some((x64, x86)),
{
    reveal_strlit("x64");
    reveal_strlit("x86");
    signatures_round_trip(x64);
    signatures_round_trip(x86);
    let m = patterns_json(x64, x86)->Object_0;
    assert("x64"@[1] == '6' && "x86"@[1] == '8');
    assert(m[0].0 == "x64"@ && m[1].0 == "x86"@);
    lemma_place(m, "x64"@, 0);
    lemma_place(m, "x86"@, 0);
    let a = pattern_json(x64)->Object_0;
    let b = pattern_json(x86)->Object_0;
    assert(a[0].0 == "broadcastVersion"@ && b[0].0 == "broadcastVersion"@);
    lemma_place(a, "broadcastVersion"@, 0);
    lemma_place(b, "broadcastVersion"@, 0);
}

proof fn lemma_not_modelled(members: MembersView)
    requires
        place(members, "patterns"@) is None,
        place(members, "versions"@) is None,
    ensures
        not_modelled(members) == members,
    decreases members.len(),
{
    lemma_place(members, "patterns"@, 0);
    lemma_place(members, "versions"@, 0);
    if members.len() > 0 {
        let shorter = members.drop_last();
        assert(members[members.len() - 1] == members.last());
        lemma_place(shorter, "patterns"@, 0);
        lemma_place(shorter, "versions"@, 0);
        if let Some(i) = place(shorter, "patterns"@) {
            assert(members[i].0 == "patterns"@);
        }
        if let Some(i) = place(shorter, "versions"@) {
            assert(members[i].0 == "versions"@);
        }
        lemma_not_modelled(shorter);
        assert(shorter.push(members.last()) =~= members);
    } else {
        assert(members =~= Seq::empty());
    }
}

/// What is written for a file is read back as that file: the same patterns, the
/// same unmodelled keys in the same order, and the versions in the order they
/// are written, with the same value for each key.
pub proof fn a_written_lookup_is_read_back(lookup: LookupView, key: Seq<char>)
    requires
        distinct(lookup.versions),
        member(lookup.extra, "patterns"@) is None,
        member(lookup.extra, "versions"@) is None,
    ensures
        lookup_of(lookup_json(lookup)) == Some(
            LookupView { versions: ordered(lookup.versions), ..lookup },
        ),
        member(ordered(lookup.versions), key) == member(lookup.versions, key),
{
    reveal_strlit("patterns");
    reveal_strlit("versions");
    written_versions_have_the_same_entries(lookup.versions, key);
    lemma_patterns_round_trip(lookup.x64, lookup.x86);
    let extra = lookup.extra;
    let all = lookup_json(lookup)->Object_0;
    assert("patterns"@[0] == 'p' && "versions"@[0] == 'v');
    lemma_place(extra, "patterns"@, 0);
    lemma_place(extra, "versions"@, 0);
    lemma_place(all, "patterns"@, 0);
    lemma_place(all, "versions"@, 0);
    assert forall|i: int| 0 <= i < extra.len() implies all[i] == #[trigger] extra[i] by {}
    assert(all[extra.len() as int].0 == "patterns"@);
    assert(all[extra.len() as int + 1].0 == "versions"@);
    assert(place(all, "patterns"@) == Some(extra.len() as int));
    assert(place(all, "versions"@) == Some(extra.len() as int + 1));
    lemma_not_modelled(extra);
    let first = all.drop_last();
    assert(first.drop_last() =~= extra);
    assert(first.last().0 == "patterns"@);
    assert(all.last().0 == "versions"@);
    assert(not_modelled(first) == extra);
    assert(not_modelled(all) == extra);
}

/// Moving the bundle version on makes it exactly one higher and leaves every
/// other key alone.
pub proof fn the_bundle_version_only_moves_forward(
    extra: MembersView,
    n: i64,
    other: Seq<char>,
)
    requires
        bundle_of(extra) == Some(n),
        n < i64::MAX,
    ensures
        ({
            let after = with_member(
                extra,
                "bundle_version"@,
                JsonView::Integer((n + 1) as i64),
            );
            &&& bundle_of(after) == Some((n + 1) as i64)
            &&& other != "bundle_version"@ ==> member(after, other) == member(extra, other)
        }),
{
    setting_a_member(extra, "bundle_version"@, JsonView::Integer((n + 1) as i64), other);
}

/// Top-level keys that are not modelled are carried through untouched: what the
/// file is written with has each of them, with the value it had.
pub proof fn keys_that_are_not_modelled_are_kept(lookup: LookupView, key: Seq<char>)
    requires
        member(lookup.extra, key) is Some,
    ensures
        lookup_json(lookup) is Object,
        member(lookup_json(lookup)->Object_0, key) == member(lookup.extra, key),
{
    let extra = lookup.extra;
    let all = lookup_json(lookup)->Object_0;
    lemma_place(extra, key, 0);
    lemma_place(all, key, 0);
    assert forall|i: int| 0 <= i < extra.len() implies all[i] == #[trigger] extra[i] by {}
    if let Some(i) = place(extra, key) {
        assert(all[i].0 == key);
        if let Some(j) = place(all, key) {
            assert(j <= i);
            assert(extra[j].0 == key);
        }
    }
}

/// `text` with `\r\n` for each `\n`.
pub open spec fn dos_lines(text: Seq<char>) -> Seq<char>
    decreases text.len(),
{
    if text.len() == 0 {
        text
    } else if text.last() == '\n' {
        dos_lines(text.drop_last()).push('\r').push('\n')
    } else {
        dos_lines(text.drop_last()).push(text.last())
    }
}

proof fn lemma_unix_lines_same(text: Seq<char>)
    requires
        forall|i: int| 0 <= i < text.len() ==> #[trigger] text[i] != '\r',
    ensures
        unix_lines(text) == text,
        unix_lines(dos_lines(text)) == text,
        dos_lines(text).len() > 0 ==> dos_lines(text).last() != '\r',
    decreases text.len(),
{
    if text.len() > 0 {
        let shorter = text.drop_last();
        assert forall|i: int| 0 <= i < shorter.len() implies #[trigger] shorter[i] != '\r' by {
            assert(text[i] != '\r');
        }
        lemma_unix_lines_same(shorter);
        assert(shorter.push(text.last()) =~= text);
        assert(text[text.len() - 1] != '\r');
        let dos = dos_lines(text);
        if text.last() == '\n' {
            assert(dos.take(dos.len() - 2) =~= dos_lines(shorter));
        } else {
            assert(dos.drop_last() =~= dos_lines(shorter));
        }
        if text.len() >= 2 {
            assert(text[text.len() - 2] != '\r');
        }
    }
}

/// Text with the line endings of one system is the same content as with those
/// of another.
pub proof fn line_endings_are_not_content(text: Seq<char>)
    requires
        forall|i: int| 0 <= i < text.len() ==> #[trigger] text[i] != '\r',
    ensures
        change_between(Some(dos_lines(text)), text) == ContentChange::Identical,
        change_between(Some(text), dos_lines(text)) == ContentChange::Identical,
{
    lemma_unix_lines_same(text);
}

/// White space at the end of a text is not content.
pub proof fn trailing_white_space_is_not_content(text: Seq<char>, c: char)
    requires
        is_white(c),
    ensures
        change_between(Some(text.push(c)), text) == ContentChange::Identical,
{
    let longer = text.push(c);
    assert(longer.drop_last() =~= text);
    if longer.len() >= 2 && longer[longer.len() - 2] == '\r' && longer.last() == '\n' {
        let shorter = text.drop_last();
        assert(longer.take(longer.len() - 2) =~= shorter);
        assert(text.last() == '\r');
        assert(unix_lines(text) == unix_lines(shorter).push('\r'));
        assert(unix_lines(shorter).push('\r').drop_last() =~= unix_lines(shorter));
        assert(unix_lines(shorter).push('\n').drop_last() =~= unix_lines(shorter));
    } else {
        assert(unix_lines(text).push(c).drop_last() =~= unix_lines(text));
    }
}

/// Refreshing `default` points it at the entry with the highest number, and leaves
/// every other key alone.
pub proof fn refreshing_sets_default_only(versions: MembersView, key: Seq<char>)
    ensures
        key != "default"@ ==> member(refreshed(versions), key) == member(versions, key),
        newest(versions) matches Some((_, best)) ==> member(refreshed(versions), "default"@) == Some(
            entry_json(best),
        ),
        newest(versions) is None ==> refreshed(versions) == versions,
{
    if let Some((_, best)) = newest(versions) {
        setting_a_member(versions, "default"@, entry_json(best), key);
        setting_a_member(versions, "default"@, entry_json(best), "default"@);
    }
}

proof fn lemma_placed_pair(row: Seq<(Seq<char>, Seq<char>)>, one: (Seq<char>, Seq<char>))
    ensures
        placed_pair(row, one).to_multiset() == row.to_multiset().insert(one),
    decreases row.len(),
{
    broadcast use vstd::seq_lib::group_to_multiset_ensures;

    if row.len() > 0 && precedes(one.0, row.last().0) {
        let shorter = row.drop_last();
        lemma_placed_pair(shorter, one);
        assert(row =~= shorter.push(row.last()));
        assert(placed_pair(row, one).to_multiset() =~= row.to_multiset().insert(one));
    }
}

/// The keys that are listed for a file are exactly those that serve it, each with
/// the version its entry names.
pub proof fn every_key_that_serves_a_file_is_listed(
    versions: MembersView,
    file: Seq<char>,
    key: Seq<char>,
    version: Seq<char>,
)
    ensures
        serving(versions, file).contains((key, version)) <==> exists|i: int|
            0 <= i < versions.len() && serves(#[trigger] versions[i], file) && versions[i].0 == key
                && entry_of(versions[i].1)->0.version == version,
    decreases versions.len(),
{
    broadcast use vstd::seq_lib::group_to_multiset_ensures;

    if versions.len() > 0 {
        let shorter = versions.drop_last();
        let last = versions.len() - 1;
        every_key_that_serves_a_file_is_listed(shorter, file, key, version);
        assert forall|i: int| 0 <= i < last implies #[trigger] versions[i] == shorter[i] by {}
        assert(versions[last] == versions.last());
        let one = (versions.last().0, entry_of(versions.last().1)->0.version);
        let row = serving(shorter, file);
        lemma_placed_pair(row, one);
        if serves(versions[last], file) {
            assert(placed_pair(row, one).contains((key, version)) <==> placed_pair(
                row,
                one,
            ).to_multiset().contains((key, version)));
            assert(row.contains((key, version)) <==> row.to_multiset().contains((key, version)));
        }
        if exists|i: int|
            0 <= i < shorter.len() && serves(#[trigger] shorter[i], file) && shorter[i].0 == key
                && entry_of(shorter[i].1)->0.version == version {
            let i = choose|i: int|
                0 <= i < shorter.len() && serves(#[trigger] shorter[i], file) && shorter[i].0 == key
                    && entry_of(shorter[i].1)->0.version == version;
            assert(serves(versions[i], file));
        }
        if exists|i: int|
            0 <= i < versions.len() && serves(#[trigger] versions[i], file) && versions[i].0 == key
                && entry_of(versions[i].1)->0.version == version {
            let i = choose|i: int|
                0 <= i < versions.len() && serves(#[trigger] versions[i], file) && versions[i].0
                    == key && entry_of(versions[i].1)->0.version == version;
            if i < last {
                assert(serves(shorter[i], file));
            }
        }
    }
}

} // verus!
