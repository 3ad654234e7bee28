//! What a run publishes, said of the two files and of what was there before.

use vstd::prelude::*;

use crate::error::ErrorView;
use crate::gameinfo::{as_published, established, stored_version, BroadcastView};
use crate::json::{compact, member, pretty_json, setting_a_member, JsonView, MembersView};
use crate::lookup::{
    bundle_of, change_between, content, entry_json, entry_of,
    every_key_serving_a_file_moves_together, leftover, lemma_broadcast_key, lookup_json, number_of,
    numbered, ordered, other_keys_are_written_in_order, placed_newest_first, published, serves,
    settled, unix_lines, versions_are_written_newest_first, EntryView, LookupView,
};
use crate::masking::signed_number;
use crate::numbers::decimal;
use crate::offsets::{Offsets, SigView};
use crate::pattern::{all_matches, pattern_of};
use crate::pe::{Arch, ImageView};
use crate::report::precedes;
use crate::run::{lookup_text, offsets_file, publication, recorded};
use crate::siggen::{literal_signature, Resolution};
use crate::text::is_white;
use crate::validate::all_problems;

verus! {

/// The text is what the JSON printer lays a value out as, with a newline at its
/// end.
pub open spec fn is_text_of(text: Seq<char>, value: JsonView) -> bool {
    pretty_json(compact(value)) matches Ok(laid_out) && text == laid_out + "\n"@
}

/// Two texts say the same but for line endings and white space at the end.
pub open spec fn same_content(a: Seq<char>, b: Seq<char>) -> bool {
    content(a) == content(b)
}

/// A text has the content of a value as it would be written.
pub open spec fn has_content_of(text: Seq<char>, value: JsonView) -> bool {
    pretty_json(compact(value)) matches Ok(laid_out) && same_content(text, laid_out + "\n"@)
}

/// How a fresh text compares to what is there: new where nothing is, identical
/// where the content is the same, changed otherwise.
pub proof fn a_change_is_judged_by_content(existing: Option<Seq<char>>, generated: Seq<char>)
    ensures
        change_between(existing, generated) is New <==> existing is None,
        change_between(existing, generated) is Identical <==> existing is Some && same_content(
            existing->0,
            generated,
        ),
        change_between(existing, generated) is Changed <==> existing is Some && !same_content(
            existing->0,
            generated,
        ),
{
}

proof fn lemma_unix(text: Seq<char>)
    requires
        forall|i: int| 0 <= i < text.len() ==> #[trigger] text[i] != '\r',
    ensures
        unix_lines(text) == text,
    decreases text.len(),
{
    if text.len() > 0 {
        let shorter = text.drop_last();
        assert forall|i: int| 0 <= i < shorter.len() implies #[trigger] shorter[i] != '\r' by {
            assert(text[i] != '\r');
        }
        lemma_unix(shorter);
        if text.len() >= 2 {
            assert(text[text.len() - 2] != '\r');
        }
        assert(shorter.push(text.last()) =~= text);
    }
}

/// Everything else is content: two texts without carriage returns that end in no
/// white space have the same content only if they are equal.
pub proof fn everything_else_is_content(a: Seq<char>, b: Seq<char>)
    requires
        forall|i: int| 0 <= i < a.len() ==> #[trigger] a[i] != '\r',
        forall|i: int| 0 <= i < b.len() ==> #[trigger] b[i] != '\r',
        a.len() > 0 ==> !is_white(a.last()),
        b.len() > 0 ==> !is_white(b.last()),
    ensures
        same_content(a, b) <==> a == b,
{
    lemma_unix(a);
    lemma_unix(b);
}

/// The counter of a file is the highest that any key publishes for it.
pub proof fn the_published_counter_is_the_highest(versions: MembersView, file: Seq<char>)
    ensures
        published(versions, file) is None <==> forall|i: int|
            0 <= i < versions.len() ==> !serves(#[trigger] versions[i], file),
        published(versions, file) matches Some(n) ==> {
            &&& exists|i: int|
                0 <= i < versions.len() && serves(#[trigger] versions[i], file) && entry_of(
                    versions[i].1,
                )->0.offsets_version == n
            &&& forall|i: int|
                0 <= i < versions.len() && serves(#[trigger] versions[i], file) ==> entry_of(
                    versions[i].1,
                )->0.offsets_version <= n
        },
    decreases versions.len(),
{
    if versions.len() > 0 {
        let shorter = versions.drop_last();
        let last = versions.len() - 1;
        the_published_counter_is_the_highest(shorter, file);
        assert forall|i: int| 0 <= i < last implies #[trigger] versions[i] == shorter[i] by {}
        assert(versions[last] == versions.last());
        if let Some(n) = published(shorter, file) {
            let i = choose|i: int|
                0 <= i < shorter.len() && serves(#[trigger] shorter[i], file) && entry_of(
                    shorter[i].1,
                )->0.offsets_version == n;
            assert(serves(versions[i], file));
        } else {
            assert forall|i: int| 0 <= i < last implies !serves(#[trigger] versions[i], file) by {
                assert(!serves(shorter[i], file));
            }
        }
        if serves(versions[last], file) {
            assert(published(versions, file) is Some);
        }
        if published(versions, file) is None {
            assert forall|i: int| 0 <= i < versions.len() implies !serves(
                #[trigger] versions[i],
                file,
            ) by {
                if i < last {
                    assert(!serves(shorter[i], file));
                }
            }
        }
    }
}

/// An entry serves a file if it names it: in an object under the keys of an
/// entry, whatever else the object has.
pub proof fn an_entry_is_read_by_its_keys(
    members: MembersView,
    version: Seq<char>,
    file: Seq<char>,
    counter: i64,
)
    ensures
        entry_of(JsonView::Object(members)) == Some(
            EntryView { version, file, offsets_version: counter },
        ) <==> member(members, "version"@) == Some(JsonView::Text(version)) && member(
            members,
            "file"@,
        ) == Some(JsonView::Text(file)) && member(members, "offsetsVersion"@) == Some(
            JsonView::Integer(counter),
        ),
{
}

/// Where a key stands in the written versions: `default` first, then numbers,
/// then the others.
pub open spec fn rank(key: Seq<char>) -> int {
    if key == "default"@ {
        0
    } else if number_of(key) is Some {
        1
    } else {
        2
    }
}

proof fn lemma_numbered(versions: MembersView)
    ensures
        forall|i: int|
            0 <= i < numbered(versions).len() ==> rank((#[trigger] numbered(versions)[i]).0) == 1,
    decreases versions.len(),
{
    if versions.len() > 0 {
        let shorter = versions.drop_last();
        lemma_numbered(shorter);
        if versions.last().0 != "default"@ && number_of(versions.last().0) is Some {
            lemma_placed(numbered(shorter), versions.last());
        }
    }
}

proof fn lemma_placed(row: MembersView, one: (Seq<char>, JsonView))
    requires
        rank(one.0) == 1,
        forall|i: int| 0 <= i < row.len() ==> rank((#[trigger] row[i]).0) == 1,
    ensures
        forall|i: int|
            0 <= i < placed_newest_first(row, one).len() ==> rank(
                (#[trigger] placed_newest_first(row, one)[i]).0,
            ) == 1,
    decreases row.len(),
{
    if row.len() > 0 {
        let shorter = row.drop_last();
        assert forall|i: int| 0 <= i < shorter.len() implies rank((#[trigger] shorter[i]).0)
            == 1 by {
            assert(shorter[i] == row[i]);
        }
        lemma_placed(shorter, one);
        assert(rank(row[row.len() - 1].0) == 1);
        let after = placed_newest_first(row, one);
        let inner = placed_newest_first(shorter, one);
        assert forall|i: int| 0 <= i < after.len() implies rank((#[trigger] after[i]).0) == 1 by {
            if number_of(one.0)->0 > number_of(row.last().0)->0 {
                if i < inner.len() {
                    assert(after[i] == inner[i]);
                }
            } else if i < row.len() {
                assert(after[i] == row[i]);
            }
        }
    }
}

/// Versions are written with `default` on top, then the numbers from the highest
/// down, then all other keys in ascending order.
pub proof fn versions_are_written_in_order(versions: MembersView)
    ensures
        forall|i: int, j: int|
            0 <= i < j < ordered(versions).len() ==> {
                let a = (#[trigger] ordered(versions)[i]).0;
                let b = (#[trigger] ordered(versions)[j]).0;
                &&& rank(a) <= rank(b)
                &&& rank(a) == 1 && rank(b) == 1 ==> number_of(a)->0 >= number_of(b)->0
                &&& rank(a) == 2 && rank(b) == 2 ==> !precedes(b, a)
                &&& rank(b) > 0
            },
{
    let top: MembersView = match member(versions, "default"@) {
        Some(value) => Seq::empty().push(("default"@, value)),
        None => Seq::empty(),
    };
    let numbers = numbered(versions);
    let others = leftover(versions);
    let all = ordered(versions);
    lemma_numbered(versions);
    versions_are_written_newest_first(versions);
    other_keys_are_written_in_order(versions);
    let a = top.len() as int;
    let b = a + numbers.len();
    assert(all =~= top + numbers + others);
    assert forall|i: int, j: int| 0 <= i < j < all.len() implies {
        let x = (#[trigger] all[i]).0;
        let y = (#[trigger] all[j]).0;
        &&& rank(x) <= rank(y)
        &&& rank(x) == 1 && rank(y) == 1 ==> number_of(x)->0 >= number_of(y)->0
        &&& rank(x) == 2 && rank(y) == 2 ==> !precedes(y, x)
        &&& rank(y) > 0
    } by {
        if j < b {
            assert(all[j] == numbers[j - a]);
            if i >= a {
                assert(all[i] == numbers[i - a]);
            }
        } else {
            assert(all[j] == others[j - b]);
            assert(rank(others[j - b].0) == 2);
            if i >= b {
                assert(all[i] == others[i - b]);
                assert(!precedes(others[j - b].0, others[i - b].0));
            } else if i >= a {
                assert(all[i] == numbers[i - a]);
            }
        }
    }
}

/// The version that a stored pattern gives is the number in the image at its
/// first match and both offsets, and is given only if it is positive.
pub proof fn a_stored_pattern_gives_the_number_it_points_at(
    image: ImageView,
    stored: SigView,
    version: i32,
)
    ensures
        stored_version(image, stored) == Ok::<i32, ErrorView>(version) <==> (stored.sig matches Some(
            text,
        ) && pattern_of(text) matches Ok(pattern) && {
            let sites = all_matches(pattern, image.mapped);
            let first = match stored.pattern_offset {
                Some(n) => n as int,
                None => 0,
            };
            let second = match stored.address_offset {
                Some(n) => n as int,
                None => 0,
            };
            let at = sites[0] + first + second;
            &&& sites.len() > 0
            &&& 0 <= at
            &&& at + 4 <= image.mapped.len()
            &&& version == signed_number(image.mapped, at, 4)
            &&& version > 0
        }),
{
}

/// The version of a build is the literal of the method that returns it, where
/// the dump reports the method, and else what the stored pattern gives. The
/// stored pattern is replaced if and only if it does not give that version.
pub proof fn the_version_is_that_of_the_method(
    image: ImageView,
    stored: SigView,
    method_rva: Option<u64>,
    version: i32,
)
    ensures
        established(image, stored, method_rva) matches Ok(found) ==> {
            &&& method_rva matches Some(rva) ==> literal_signature(image, rva) matches Ok(signature)
                && signature.resolves_to == Resolution::Immediate(found.version)
            &&& found.version > 0
            &&& found.replacement is None <==> stored_version(image, stored) == Ok::<
                i32,
                ErrorView,
            >(found.version)
            &&& found.replacement matches Some(new) ==> method_rva matches Some(rva)
                && literal_signature(image, rva) matches Ok(signature) && new == as_published(
                signature,
            )
        },
        method_rva is None && stored_version(image, stored) is Ok ==> established(
            image,
            stored,
            method_rva,
        ) is Ok,
        method_rva matches Some(rva) ==> (literal_signature(image, rva) matches Ok(signature)
            ==> signature.resolves_to == Resolution::Immediate(version) && version > 0
            ==> established(image, stored, method_rva) is Ok),
{
}

/// What is published: the text of the offsets, and a `lookup.json` in which the
/// build is recorded under its broadcast version with the file it is served by
/// and the counter that makes clients fetch it; the pattern of the other
/// architecture and all keys that are not modelled stay as they are, but for
/// `bundle_version`, which moves on by one exactly if the bundle changes.
#[verifier::rlimit(40)]
pub proof fn a_publication_records_the_build(
    offsets: Offsets,
    image: ImageView,
    types: Map<Seq<char>, u64>,
    game: Seq<char>,
    method_rva: Option<u64>,
    lookup: LookupView,
    current: Seq<char>,
    existing: Option<Seq<char>>,
    key: Seq<char>,
) -> (written: LookupView)
    ensures
        publication(
            offsets,
            image,
            types,
            game,
            method_rva,
            lookup,
            current,
            existing,
        ) matches Ok(p) ==> {
            let file = "V"@ + game + "/offsets.json"@;
            let entry = EntryView {
                version: "V"@ + game,
                file,
                offsets_version: p.offsets_version,
            };
            &&& all_problems(offsets, image, types).len() == 0
            &&& is_text_of(p.offsets_text, offsets.json())
            &&& is_text_of(p.lookup_text, lookup_json(written))
            &&& p.change == change_between(existing, p.offsets_text)
            &&& p.offsets_version == (match published(lookup.versions, file) {
                None => 1,
                Some(n) => if p.change is Identical {
                    n as int
                } else {
                    n + 1
                },
            })
            &&& established(image, lookup.pattern(image.arch), method_rva) == Ok::<
                BroadcastView,
                ErrorView,
            >(p.broadcast)
            &&& member(written.versions, decimal(p.broadcast.version as int)) == Some(
                entry_json(entry),
            )
            &&& written.pattern(image.arch) == (match p.broadcast.replacement {
                Some(new) => new,
                None => lookup.pattern(image.arch),
            })
            &&& image.arch == Arch::X86 ==> written.x64 == lookup.x64
            &&& image.arch == Arch::X64 ==> written.x86 == lookup.x86
            &&& key != "bundle_version"@ ==> member(written.extra, key) == member(lookup.extra, key)
            &&& p.bundle_version == bundle_of(written.extra)
            &&& bundle_of(lookup.extra) is None ==> p.bundle_version is None
            &&& bundle_of(lookup.extra) matches Some(n) ==> p.bundle_version is Some && (if p.change
                is Identical && has_content_of(
                current,
                lookup_json(LookupView { extra: lookup.extra, ..written }),
            ) {
                p.bundle_version->0 == n
            } else {
                p.bundle_version->0 == n + 1
            })
        },
{
    let broadcast = established(image, lookup.pattern(image.arch), method_rva)->Ok_0;
    let result = publication(
        offsets,
        image,
        types,
        game,
        method_rva,
        lookup,
        current,
        existing,
    );
    if let Ok(p) = result {
        let after = recorded(lookup, image, game, broadcast, p.change);
        let rendered = lookup_text(after)->Ok_0;
        let last = settled(after, p.change, current, rendered);
        let file = offsets_file(game);
        lemma_broadcast_key(broadcast.version);
        every_key_serving_a_file_moves_together(
            lookup.versions,
            broadcast.version,
            game,
            file,
            p.change,
            decimal(broadcast.version as int),
        );
        if let Some(n) = bundle_of(lookup.extra) {
            let value = JsonView::Integer((n + 1) as i64);
            setting_a_member(lookup.extra, "bundle_version"@, value, key);
            setting_a_member(lookup.extra, "bundle_version"@, value, "bundle_version"@);
        }
        assert(LookupView { extra: lookup.extra, ..last } == after);
        last
    } else {
        lookup
    }
}

} // verus!
