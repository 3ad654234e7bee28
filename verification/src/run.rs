//! One run, from generated offsets to the two files that are published.

use vstd::prelude::*;

use crate::error::{agrees_in_view, Error, ErrorView, Result};
use crate::gameinfo::{establish_broadcast, established, Broadcast, BroadcastView, GameVersion};
use crate::json::{compact, file_text, pretty_json};
use crate::lookup::{
    bundle_changes, bundle_of, change_between, classify_change, lookup_json, next_version,
    published, settled, upserted, ContentChange, Lookup, LookupView,
};
use crate::offsets::{render_offsets, Offsets};
use crate::pe::{Image, ImageView};
use crate::scriptjson::TypeInfoTable;
use crate::text::views;
use crate::validate::{all_problems, check_count, validate, write_warnings, Report};

verus! {

/// The report says of a file what is wrong, what should be known, and how many
/// checks were run.
pub open spec fn reports(
    report: Report,
    offsets: Offsets,
    image: ImageView,
    types: Map<Seq<char>, u64>,
) -> bool {
    &&& views(report.problems@) == all_problems(offsets, image, types)
    &&& views(report.warnings@) == write_warnings(offsets, image)
    &&& check_count(offsets, image) <= usize::MAX ==> report.checks_run == check_count(
        offsets,
        image,
    )
}

/// Runs every check on a file. A file that fails one is refused, with everything
/// that is wrong with it.
pub fn check_file(offsets: &Offsets, image: &Image, types: &TypeInfoTable) -> (r: Result<Report>)
    ensures
        match r {
            Ok(report) => all_problems(*offsets, image@, types@).len() == 0 && reports(
                report,
                *offsets,
                image@,
                types@,
            ),
            Err(error) => all_problems(*offsets, image@, types@).len() > 0 && error@
                == ErrorView::Validation(all_problems(*offsets, image@, types@)),
        },
{
    let report: Report = validate(offsets, image, types);
    if !report.is_ok() {
        return Err(Error::Validation(report.problems));
    }
    Ok(report)
}

/// What is to be written, and what there is to say of it.
pub struct Publication {
    pub offsets_text: String,
    pub lookup_text: String,
    pub broadcast: Broadcast,
    pub change: ContentChange,
    pub offsets_version: i64,
    pub bundle_version: Option<i64>,
}

/// What a [`Publication`] says.
pub struct PublicationView {
    pub offsets_text: Seq<char>,
    pub lookup_text: Seq<char>,
    pub broadcast: BroadcastView,
    pub change: ContentChange,
    pub offsets_version: i64,
    pub bundle_version: Option<i64>,
}

impl View for Publication {
    type V = PublicationView;

    open spec fn view(&self) -> PublicationView {
        PublicationView {
            offsets_text: self.offsets_text@,
            lookup_text: self.lookup_text@,
            broadcast: self.broadcast@,
            change: self.change,
            offsets_version: self.offsets_version,
            bundle_version: self.bundle_version,
        }
    }
}

/// The offsets file of a version, as `lookup.json` names it.
pub open spec fn offsets_file(game: Seq<char>) -> Seq<char> {
    "V"@ + game + "/offsets.json"@
}

/// `lookup.json` with the pattern that the broadcast version was settled on.
pub open spec fn with_broadcast(
    lookup: LookupView,
    image: ImageView,
    broadcast: BroadcastView,
) -> LookupView {
    match broadcast.replacement {
        Some(signature) => lookup.with_pattern(image.arch, signature),
        None => lookup,
    }
}

/// `lookup.json` after the build has been recorded in it.
pub open spec fn recorded(
    lookup: LookupView,
    image: ImageView,
    game: Seq<char>,
    broadcast: BroadcastView,
    change: ContentChange,
) -> LookupView {
    let patched = with_broadcast(lookup, image, broadcast);
    LookupView {
        versions: upserted(
            patched.versions,
            broadcast.version,
            game,
            offsets_file(game),
            change,
        ),
        ..patched
    }
}

/// The text of a `lookup.json`.
pub open spec fn lookup_text(lookup: LookupView) -> std::result::Result<Seq<char>, ErrorView> {
    file_text("lookup.json"@, pretty_json(compact(lookup_json(lookup))))
}

/// What a run publishes, or why it publishes nothing. Nothing is published of a
/// file that fails a check.
pub open spec fn publication(
    offsets: Offsets,
    image: ImageView,
    types: Map<Seq<char>, u64>,
    game: Seq<char>,
    method_rva: Option<u64>,
    lookup: LookupView,
    current: Seq<char>,
    existing: Option<Seq<char>>,
) -> std::result::Result<PublicationView, ErrorView> {
    let problems = all_problems(offsets, image, types);
    if problems.len() > 0 {
        Err(ErrorView::Validation(problems))
    } else {
        match established(image, lookup.pattern(image.arch), method_rva) {
            Err(e) => Err(e),
            Ok(broadcast) => match file_text(
                "offsets.json"@,
                pretty_json(compact(offsets.json())),
            ) {
                Err(e) => Err(e),
                Ok(offsets_text) => {
                    let change = change_between(existing, offsets_text);
                    let after = recorded(lookup, image, game, broadcast, change);
                    let offsets_version = next_version(
                        change,
                        published(lookup.versions, offsets_file(game)),
                    );
                    if offsets_version > i64::MAX {
                        Err(ErrorView::Malformed("offsetsVersion cannot be counted any further"@))
                    } else {
                        match lookup_text(after) {
                            Err(e) => Err(e),
                            Ok(rendered) => {
                                let last = settled(after, change, current, rendered);
                                if bundle_changes(change, current, rendered) && bundle_of(
                                    after.extra,
                                ) == Some(i64::MAX) {
                                    Err(
                                        ErrorView::Malformed(
                                            "bundle_version cannot be counted any further"@,
                                        ),
                                    )
                                } else {
                                    match lookup_text(last) {
                                        Err(e) => Err(e),
                                        Ok(text) => Ok(
                                            PublicationView {
                                                offsets_text,
                                                lookup_text: text,
                                                broadcast,
                                                change,
                                                offsets_version: offsets_version as i64,
                                                bundle_version: bundle_of(last.extra),
                                            },
                                        ),
                                    }
                                }
                            },
                        }
                    }
                },
            },
        }
    }
}

/// Checks the offsets, settles the broadcast version, and works out the two
/// files as they are to be written: `existing` is the offsets file that is
/// there, `current` the text of `lookup.json`.
pub fn publish(
    offsets: &Offsets,
    image: &Image,
    types: &TypeInfoTable,
    version: &GameVersion,
    method_rva: Option<u64>,
    lookup: Lookup,
    current: &str,
    existing: Option<&str>,
) -> (r: Result<Publication>)
    ensures
        agrees_in_view(
            r,
            publication(
                *offsets,
                image@,
                types@,
                version@.game,
                method_rva,
                lookup@,
                current@,
                match existing {
                    Some(text) => Some(text@),
                    None => None,
                },
            ),
        ),
{
    let _report: Report = check_file(offsets, image, types)?;
    let mut after: Lookup = lookup;
    let broadcast: Broadcast = establish_broadcast(
        image,
        after.broadcast_pattern(image.arch()),
        method_rva,
    )?;
    let offsets_text: String = render_offsets(offsets)?;
    let change: ContentChange = classify_change(existing, offsets_text.as_str());
    match &broadcast.replacement {
        Some(signature) => {
            after.set_broadcast_pattern(image.arch(), signature.copy());
        },
        None => {},
    }
    let file: String = version.offsets_file();
    if change != ContentChange::Identical {
        if let Some(n) = after.published_version_for(file.as_str()) {
            if n == i64::MAX {
                return Err(
                    Error::malformed("offsetsVersion cannot be counted any further".to_owned()),
                );
            }
        }
    }
    let offsets_version: i64 = after.upsert(
        broadcast.version,
        version.game.as_str(),
        file.as_str(),
        change,
    )?;
    let rendered: String = after.to_json()?;
    let rewritten: ContentChange = classify_change(Some(current), rendered.as_str());
    let changes = change != ContentChange::Identical || rewritten != ContentChange::Identical;
    let bundle_version: Option<i64> = match after.bundle_version() {
        Some(n) => if n == i64::MAX {
            if changes {
                return Err(
                    Error::malformed("bundle_version cannot be counted any further".to_owned()),
                );
            }
            Some(n)
        } else {
            after.settle_bundle_version(change, current, rendered.as_str())
        },
        None => after.settle_bundle_version(change, current, rendered.as_str()),
    };
    let lookup_text: String = after.to_json()?;
    Ok(
        Publication {
            offsets_text,
            lookup_text,
            broadcast,
            change,
            offsets_version,
            bundle_version,
        },
    )
}

/// Nothing is published of a file that fails a check, and the refusal names
/// everything that is wrong.
pub proof fn a_file_that_fails_a_check_is_not_published(
    offsets: Offsets,
    image: ImageView,
    types: Map<Seq<char>, u64>,
    game: Seq<char>,
    method_rva: Option<u64>,
    lookup: LookupView,
    current: Seq<char>,
    existing: Option<Seq<char>>,
)
    ensures
        ({
            let problems = all_problems(offsets, image, types);
            let result = publication(
                offsets,
                image,
                types,
                game,
                method_rva,
                lookup,
                current,
                existing,
            );
            &&& problems.len() > 0 ==> result == Err::<PublicationView, ErrorView>(
                ErrorView::Validation(problems),
            )
            &&& result is Ok ==> problems.len() == 0
        }),
{
}

} // verus!
