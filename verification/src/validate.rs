//! What stands between generating offsets and publishing them.
//!
//! Every check below is cheap and runs on every generated file; if any of them
//! fails, nothing is written.
//!
//! The strongest check is [`check_signatures`]: each generated signature is
//! scanned for in the mapped image and resolved with the client's own
//! arithmetic, and the result has to be the type-info slot it was built from.
//! That verifies the signature end to end rather than trusting the code that
//! produced it.

use vstd::prelude::*;

use crate::generate::{
    a_padded_struct_fills_its_buffer, after_chains, all_vouched, and, buffer_length, by_offset,
    has_signature, laid, lemma_laid, nothing_is_guessed, offsets_from, placed, plan, problems_of,
    published, record, record_fields, signature, signature_of, struct_of, sums_fit, vouched,
    RecordField, Sources,
};
use crate::json::{
    item_views, json_view, lemma_item_views, lemma_member_views, member_views, Json, JsonView,
    MembersView,
};
use crate::numbers::{capital_hex, capital_hex_text, decimal, decimal_text};
use crate::offsets::{
    backed_chains, chain_views, layout_views, or_zero, total_size, Offsets, SigView, Signature,
    StructMember, StructMemberView, SIGNATURE_RESOLVED,
};
use crate::pattern::{all_matches, pattern_of, pattern_text, text_round_trips, Pattern};
use crate::pe::{Arch, Image, ImageView};
use crate::scriptjson::TypeInfoTable;
use crate::siggen::{client_resolution, SignatureGenerator};
use crate::text::{
    chars_of, is_white, join, joined, maybe_text, occurs_at, same_text, str_views, trim, trim_end,
    views, without_prefix,
};

verus! {

/// Largest offset we believe in. Real ones are in the hundreds; a value in the
/// millions means an address leaked into a field slot.
pub const MAX_PLAUSIBLE_OFFSET: i64 = 65_536;

pub struct Report {
    pub problems: Vec<String>,
    /// Things that are not wrong but that a maintainer should see. A stale
    /// write-path signature is the motivating case: harmless while writing is
    /// off, and a live hazard the moment it is turned on.
    pub warnings: Vec<String>,
    pub checks_run: usize,
}

impl Report {
    pub fn is_ok(&self) -> (r: bool)
        ensures
            r == (views(self.problems@).len() == 0),
    {
        self.problems.len() == 0
    }
}

/// A place in a JSON value, and the integer that stands there, where one does.
pub type Leaf = (Seq<char>, Option<i64>);

/// The path of a member.
pub open spec fn member_path(path: Seq<char>, key: Seq<char>) -> Seq<char> {
    if path.len() == 0 {
        key
    } else {
        path + "."@ + key
    }
}

/// The path of an item.
pub open spec fn item_path(path: Seq<char>, index: int) -> Seq<char> {
    path + "["@ + decimal(index) + "]"@
}

/// The leaves of a JSON value, in order.
pub open spec fn leaves(value: JsonView, path: Seq<char>) -> Seq<Leaf>
    decreases value,
{
    match value {
        JsonView::Object(members) => member_leaves(members, path),
        JsonView::List(items) => item_leaves(items, path),
        JsonView::Integer(n) => Seq::empty().push((path, Some(n))),
        _ => Seq::empty().push((path, None)),
    }
}

pub open spec fn member_leaves(members: MembersView, path: Seq<char>) -> Seq<Leaf>
    decreases members,
{
    if members.len() == 0 {
        Seq::empty()
    } else {
        member_leaves(members.drop_last(), path) + leaves(
            members.last().1,
            member_path(path, members.last().0),
        )
    }
}

pub open spec fn item_leaves(items: Seq<JsonView>, path: Seq<char>) -> Seq<Leaf>
    decreases items,
{
    if items.len() == 0 {
        Seq::empty()
    } else {
        item_leaves(items.drop_last(), path) + leaves(
            items.last(),
            item_path(path, items.len() - 1),
        )
    }
}

/// Whether `path` is slot 0 of a chain whose first element the client replaces.
/// It holds nothing meaningful: the client overwrites it with a pattern scan
/// before use.
pub open spec fn replaced_slot(path: Seq<char>) -> bool {
    ||| path == "meetingHud"@ + "[0]"@
    ||| path == "allPlayersPtr"@ + "[0]"@
    ||| path == "shipStatus"@ + "[0]"@
    ||| path == "miniGame"@ + "[0]"@
    ||| path == "palette"@ + "[0]"@
    ||| path == "gameoptionsData"@ + "[0]"@
    ||| path == "serverManager_currentServer"@ + "[0]"@
    ||| path == "innerNetClient.base"@ + "[0]"@
    ||| path == "playerControl_GameOptions"@ + "[0]"@
}

/// What is wrong with one leaf. Signatures are checked by scanning for them;
/// their numbers are instruction-encoding adjustments, not field offsets.
pub open spec fn leaf_problem(leaf: Leaf) -> Option<Seq<char>> {
    let path = leaf.0;
    match leaf.1 {
        None => None,
        Some(n) => if occurs_at(path, "signatures."@, 0) || replaced_slot(path) {
            None
        } else if n == SIGNATURE_RESOLVED {
            Some(
                path + " is "@ + decimal(SIGNATURE_RESOLVED as int)
                    + ", which is the marker for \"resolved by signature at runtime\". Outside slot 0 of a signature-backed chain that means a lookup failed"@,
            )
        } else if n < 0 {
            Some(path + " is negative ("@ + decimal(n as int) + ")"@)
        } else if n > MAX_PLAUSIBLE_OFFSET {
            Some(path + " is "@ + decimal(n as int) + ", far past any plausible field offset"@)
        } else {
            None
        },
    }
}

/// What is wrong with these leaves.
pub open spec fn leaf_problems(all: Seq<Leaf>) -> Seq<Seq<char>>
    decreases all.len(),
{
    if all.len() == 0 {
        Seq::empty()
    } else {
        and(leaf_problems(all.drop_last()), leaf_problem(all.last()))
    }
}

/// Every leaf of an offsets file.
pub open spec fn file_leaves(offsets: Offsets) -> Seq<Leaf> {
    leaves(offsets.json(), Seq::empty())
}

/// The `static_fields` offset that the first of these chains uses, and what is
/// wrong with them. A chain has at least the slot and `static_fields`, they all
/// use one `static_fields` offset, and each has a signature.
pub open spec fn shape(chains: Seq<(Seq<char>, Seq<i64>, SigView)>) -> (
    Option<i64>,
    Seq<Seq<char>>,
)
    decreases chains.len(),
{
    if chains.len() == 0 {
        (None, Seq::empty())
    } else {
        let (static_fields, problems) = shape(chains.drop_last());
        let (name, chain, signature) = chains.last();
        if chain.len() < 2 {
            (
                static_fields,
                problems.push(
                    name + " has "@ + decimal(chain.len() as int)
                        + " element(s); a signature-backed chain needs at least the slot and static_fields"@,
                ),
            )
        } else {
            let uneven = match static_fields {
                Some(expected) => if expected != chain[1] {
                    Some(
                        name + "[1] is "@ + decimal(chain[1] as int) + " but other chains use "@
                            + decimal(expected as int) + " for Il2CppClass::static_fields"@,
                    )
                } else {
                    None
                },
                None => None,
            };
            let unsigned = if signature.present() {
                None
            } else {
                Some(
                    name + " is resolved by signature at runtime but its signature is empty"@,
                )
            };
            (
                match static_fields {
                    Some(expected) => Some(expected),
                    None => Some(chain[1]),
                },
                and(and(problems, uneven), unsigned),
            )
        }
    }
}

/// A member of this name is there.
pub open spec fn has_member(members: Seq<StructMemberView>, name: Seq<char>) -> bool {
    exists|i: int| 0 <= i < members.len() && (#[trigger] members[i]).name == name
}

/// What is wrong where a member that the client looks up by name is not there.
/// It gets undefined for one that is not, which turns into a read that quietly
/// yields nothing -- so a file missing one of these produces no player data at
/// all, without any error.
pub open spec fn absent(members: Seq<StructMemberView>, name: Seq<char>) -> Option<Seq<char>> {
    if has_member(members, name) {
        None
    } else {
        Some(
            "player.struct is missing '"@ + name
                + "', which GameReader reads by name -- the client would get no player data from this file"@,
        )
    }
}

/// What is wrong with the player struct.
pub open spec fn struct_problems(members: Seq<StructMemberView>, buffer_length: i64) -> Seq<
    Seq<char>,
> {
    let total = total_size(members);
    let uneven = if total != buffer_length {
        Some(
            "player.struct describes "@ + decimal(total) + " bytes but player.bufferLength is "@
                + decimal(buffer_length as int)
                + "; the client reads bufferLength bytes and parses them with the struct, so the two have to agree"@,
        )
    } else {
        None
    };
    let empty = if exists|i: int|
        0 <= i < members.len() && (#[trigger] members[i]).size() <= 0 {
        Some("player.struct contains a member of zero or negative size"@)
    } else {
        None
    };
    and(
        and(
            and(
                and(
                    and(
                        and(
                            and(and(Seq::empty(), uneven), empty),
                            absent(members, "id"@),
                        ),
                        absent(members, "outfitsPtr"@),
                    ),
                    absent(members, "rolePtr"@),
                ),
                absent(members, "taskPtr"@),
            ),
            absent(members, "dead"@),
        ),
        absent(members, "objectPtr"@),
    )
}

/// What is wrong with the signature for a type: it has to match at exactly one
/// place and resolve to the slot of the type there.
pub open spec fn signature_problem(
    image: ImageView,
    types: Map<Seq<char>, u64>,
    name: Seq<char>,
    signature: SigView,
    of: Seq<char>,
) -> Option<Seq<char>> {
    let prefix = "signatures."@ + name;
    match signature.sig {
        None => Some(prefix + " is missing"@),
        Some(text) => match pattern_of(text) {
            Err(error) => Some(prefix + " does not parse: "@ + error.text()),
            Ok(pattern) => {
                let sites = all_matches(pattern, image.mapped);
                if sites.len() != 1 {
                    Some(
                        prefix + " matches "@ + (if sites.len() >= 4 {
                            "4 or more"@
                        } else {
                            decimal(sites.len() as int)
                        })
                            + " times in the module; the client takes the first match, so anything but exactly one is a coin flip on the next build"@,
                    )
                } else {
                    match client_resolution(
                        image,
                        sites[0] as int,
                        or_zero(signature.pattern_offset),
                        or_zero(signature.address_offset),
                    ) {
                        Err(error) => Some(prefix + " does not resolve: "@ + error.text()),
                        Ok(actual) => if !types.contains_key(of) {
                            Some(
                                prefix + ": "@ + of
                                    + "_TypeInfo is not in script.json, so the signature cannot be checked"@,
                            )
                        } else if actual == types[of] {
                            None
                        } else {
                            Some(
                                prefix + " resolves to 0x"@ + capital_hex(actual as nat) + " but "@
                                    + of + "_TypeInfo is at 0x"@ + capital_hex(types[of] as nat),
                            )
                        },
                    }
                }
            },
        },
    }
}

/// What is wrong with the signatures that are generated.
pub open spec fn signature_problems(
    offsets: Offsets,
    image: ImageView,
    types: Map<Seq<char>, u64>,
) -> Seq<Seq<char>> {
    let s = offsets.signatures;
    let problem = |name: Seq<char>, signature: SigView, of: Seq<char>|
        signature_problem(image, types, name, signature, of);
    let p1 = and(Seq::empty(), problem("innerNetClient"@, s.inner_net_client@, "AmongUsClient"@));
    let p2 = and(p1, problem("meetingHud"@, s.meeting_hud@, "MeetingHud"@));
    let p3 = and(p2, problem("gameData"@, s.game_data@, "GameData"@));
    let p4 = and(p3, problem("shipStatus"@, s.ship_status@, "ShipStatus"@));
    let p5 = and(p4, problem("miniGame"@, s.mini_game@, "Minigame"@));
    let p6 = and(p5, problem("palette"@, s.palette@, "Palette"@));
    let p7 = and(p6, problem("playerControl"@, s.player_control@, "PlayerControl"@));
    let p8 = and(p7, problem("serverManager"@, s.server_manager@, "ServerManager"@));
    and(p8, problem("gameOptionsManager"@, s.game_options_manager@, "GameOptionsManager"@))
}

/// Why a write-path signature is not usable. Anything other than exactly one
/// match is unusable: the client takes the first match, so with several it
/// would patch an arbitrary one.
pub open spec fn staleness(image: ImageView, name: Seq<char>, signature: SigView) -> Option<
    Seq<char>,
> {
    match signature.sig {
        None => Some(name + " is missing or unparseable"@),
        Some(text) => match pattern_of(text) {
            Err(_) => Some(name + " is missing or unparseable"@),
            Ok(pattern) => {
                let count = all_matches(pattern, image.mapped).len();
                if count == 1 {
                    None
                } else if count > 1 {
                    Some(name + " matches more than once"@)
                } else {
                    Some(name + " does not match this build"@)
                }
            },
        },
    }
}

/// The hook points for injected code, in the order they are checked.
pub open spec fn hooks(offsets: Offsets) -> Seq<(Seq<char>, SigView)> {
    Seq::empty()
        .push(("showModStamp"@, offsets.signatures.show_mod_stamp@))
        .push(("connectFunc"@, offsets.signatures.connect_func@))
        .push(("fixedUpdateFunc"@, offsets.signatures.fixed_update_func@))
        .push(("modLateUpdate"@, offsets.signatures.mod_late_update@))
        .push(("pingMessageString"@, offsets.signatures.ping_message_string@))
}

/// Why hooks among these are not usable.
pub open spec fn stale(image: ImageView, all: Seq<(Seq<char>, SigView)>) -> Seq<Seq<char>>
    decreases all.len(),
{
    if all.len() == 0 {
        Seq::empty()
    } else {
        and(stale(image, all.drop_last()), staleness(image, all.last().0, all.last().1))
    }
}

/// What is wrong with a hook where the client writes.
pub open spec fn hook_problem(image: ImageView, name: Seq<char>, signature: SigView) -> Option<
    Seq<char>,
> {
    if staleness(image, name, signature) is None {
        None
    } else {
        Some(
            "signatures."@ + name
                + " does not resolve on this build, and disableWriting is false. The client patches the running game with this address -- writing shellcode to whatever it resolves to instead is not something to ship."@,
        )
    }
}

/// What is wrong with these hooks where the client writes.
pub open spec fn hook_problems(image: ImageView, all: Seq<(Seq<char>, SigView)>) -> Seq<Seq<char>>
    decreases all.len(),
{
    if all.len() == 0 {
        Seq::empty()
    } else {
        and(
            hook_problems(image, all.drop_last()),
            hook_problem(image, all.last().0, all.last().1),
        )
    }
}

/// What is wrong with the write path: only x86 has one, and it is only used
/// when writing is not disabled.
pub open spec fn write_problems(offsets: Offsets, image: ImageView) -> Seq<Seq<char>> {
    if image.arch == Arch::X86 && !offsets.disable_writing {
        hook_problems(image, hooks(offsets))
    } else {
        Seq::empty()
    }
}

/// What a maintainer should see of the write path while writing is disabled.
pub open spec fn write_warnings(offsets: Offsets, image: ImageView) -> Seq<Seq<char>> {
    let all = stale(image, hooks(offsets));
    if image.arch == Arch::X86 && offsets.disable_writing && all.len() > 0 {
        Seq::empty().push(
            "write-path signatures are stale ("@ + joined(all, ", "@)
                + "). Harmless while disableWriting is true, since nothing reads them -- but they have to be refreshed by hand before it is turned off. They are hook points for injected shellcode and cannot be generated."@,
        )
    } else {
        Seq::empty()
    }
}

/// What is wrong with a file, as far as the file alone shows it.
pub open spec fn structural(offsets: Offsets) -> Seq<Seq<char>> {
    leaf_problems(file_leaves(offsets)) + shape(backed_chains(offsets)).1 + struct_problems(
        layout_views(offsets.player.struct_layout@),
        offsets.player.buffer_length,
    )
}

/// What is wrong with a file on a game build.
pub open spec fn all_problems(
    offsets: Offsets,
    image: ImageView,
    types: Map<Seq<char>, u64>,
) -> Seq<Seq<char>> {
    structural(offsets) + signature_problems(offsets, image, types) + write_problems(
        offsets,
        image,
    )
}

/// How many checks are run on a file.
pub open spec fn check_count(offsets: Offsets, image: ImageView) -> int {
    file_leaves(offsets).len() + 8 + 4 + 9 + (if image.arch == Arch::X86 {
        5int
    } else {
        0int
    })
}

fn add_problem(problems: &mut Vec<String>, message: String)
    ensures
        views(final(problems)@) == views(old(problems)@).push(message@),
{
    let ghost before = views(problems@);
    problems.push(message);
    assert(views(problems@) =~= before.push(message@));
}

pub open spec fn leaf_views(all: Seq<(String, Option<i64>)>) -> Seq<Leaf> {
    all.map_values(|l: (String, Option<i64>)| (l.0@, l.1))
}

/// Collects the leaves of a JSON value, in order.
fn walk(value: &Json, path: &String, out: &mut Vec<(String, Option<i64>)>)
    ensures
        leaf_views(final(out)@) == leaf_views(old(out)@) + leaves(value@, path@),
    decreases *value,
{
    let ghost start = leaf_views(out@);
    match value {
        Json::Object(members) => {
            let mut i: usize = 0;
            assert(member_leaves(member_views(members@.take(0)), path@) =~= Seq::empty());
            assert(leaf_views(out@) =~= start + member_leaves(
                member_views(members@.take(0)),
                path@,
            ));
            while i < members.len()
                invariant
                    i <= members@.len(),
                    *value == Json::Object(*members),
                    leaf_views(out@) == start + member_leaves(
                        member_views(members@.take(i as int)),
                        path@,
                    ),
                decreases members@.len() - i,
            {
                proof {
                    lemma_member_views(members@.take(i as int));
                    lemma_member_views(members@.take(i + 1));
                }
                assert(members@.take(i + 1).drop_last() =~= members@.take(i as int));
                assert(member_views(members@.take(i + 1)).drop_last() =~= member_views(
                    members@.take(i as int),
                ));
                assert(decreases_to!(*value => value->Object_0));
                assert(decreases_to!(*members => members[i as int]));
                let key = &members[i].0;
                let child: String = if path.as_str().unicode_len() == 0 {
                    key.clone()
                } else {
                    let mut longer = path.clone();
                    longer.append(".");
                    longer.append(key.as_str());
                    longer
                };
                let ghost before = leaf_views(out@);
                walk(&members[i].1, &child, out);
                assert(before + leaves(json_view(members@[i as int].1), child@) =~= start + (
                member_leaves(member_views(members@.take(i as int)), path@) + leaves(
                    json_view(members@[i as int].1),
                    child@,
                )));
                i += 1;
            }
            assert(members@.take(members@.len() as int) =~= members@);
        },
        Json::List(items) => {
            let mut i: usize = 0;
            assert(item_leaves(item_views(items@.take(0)), path@) =~= Seq::empty());
            assert(leaf_views(out@) =~= start + item_leaves(item_views(items@.take(0)), path@));
            while i < items.len()
                invariant
                    i <= items@.len(),
                    *value == Json::List(*items),
                    leaf_views(out@) == start + item_leaves(
                        item_views(items@.take(i as int)),
                        path@,
                    ),
                decreases items@.len() - i,
            {
                proof {
                    lemma_item_views(items@.take(i as int));
                    lemma_item_views(items@.take(i + 1));
                }
                assert(items@.take(i + 1).drop_last() =~= items@.take(i as int));
                assert(item_views(items@.take(i + 1)).drop_last() =~= item_views(
                    items@.take(i as int),
                ));
                assert(decreases_to!(*value => value->List_0));
                assert(decreases_to!(*items => items[i as int]));
                let mut child = path.clone();
                child.append("[");
                child.append(decimal_text(i as i128).as_str());
                child.append("]");
                let ghost before = leaf_views(out@);
                walk(&items[i], &child, out);
                assert(before + leaves(json_view(items@[i as int]), child@) =~= start + (
                item_leaves(item_views(items@.take(i as int)), path@) + leaves(
                    json_view(items@[i as int]),
                    child@,
                )));
                i += 1;
            }
            assert(items@.take(items@.len() as int) =~= items@);
        },
        Json::Integer(n) => {
            out.push((path.clone(), Some(*n)));
            assert(leaf_views(out@) =~= start + leaves(value@, path@));
        },
        _ => {
            out.push((path.clone(), None));
            assert(leaf_views(out@) =~= start + leaves(value@, path@));
        },
    }
}

fn is_slot(path: &String, chain: &str) -> (r: bool)
    ensures
        r == (path@ == chain@ + "[0]"@),
{
    let mut slot = chain.to_owned();
    slot.append("[0]");
    same_text(path.as_str(), slot.as_str())
}

fn is_replaced_slot(path: &String) -> (r: bool)
    ensures
        r == replaced_slot(path@),
{
    is_slot(path, "meetingHud") || is_slot(path, "allPlayersPtr") || is_slot(path, "shipStatus")
        || is_slot(path, "miniGame") || is_slot(path, "palette") || is_slot(
        path,
        "gameoptionsData",
    ) || is_slot(path, "serverManager_currentServer") || is_slot(path, "innerNetClient.base")
        || is_slot(path, "playerControl_GameOptions")
}

fn check_leaf(path: &String, number: Option<i64>) -> (r: Option<String>)
    ensures
        maybe_text(r) == leaf_problem((path@, number)),
{
    let n: i64 = match number {
        Some(n) => n,
        None => {
            return None;
        },
    };
    let chars: Vec<char> = chars_of(path.as_str());
    if without_prefix(chars.as_slice(), "signatures.").is_some() || is_replaced_slot(path) {
        return None;
    }
    let mut message = path.clone();
    if n == SIGNATURE_RESOLVED {
        message.append(" is ");
        message.append(decimal_text(SIGNATURE_RESOLVED as i128).as_str());
        message.append(
            ", which is the marker for \"resolved by signature at runtime\". Outside slot 0 of a signature-backed chain that means a lookup failed",
        );
        Some(message)
    } else if n < 0 {
        message.append(" is negative (");
        message.append(decimal_text(n as i128).as_str());
        message.append(")");
        Some(message)
    } else if n > MAX_PLAUSIBLE_OFFSET {
        message.append(" is ");
        message.append(decimal_text(n as i128).as_str());
        message.append(", far past any plausible field offset");
        Some(message)
    } else {
        None
    }
}

/// No unresolved values anywhere. Slot 0 of a signature-backed chain is the one
/// legitimate negative number in the file.
pub fn check_no_sentinels(offsets: &Offsets, problems: &mut Vec<String>) -> (r: usize)
    ensures
        views(final(problems)@) == views(old(problems)@) + leaf_problems(file_leaves(*offsets)),
        r == file_leaves(*offsets).len(),
{
    let json: Json = offsets.to_json();
    let mut all: Vec<(String, Option<i64>)> = Vec::new();
    walk(&json, &String::new(), &mut all);
    let ghost found = leaf_views(all@);
    assert(found =~= file_leaves(*offsets));
    let ghost start = views(problems@);
    assert(views(problems@) =~= start + leaf_problems(found.take(0)));
    for i in 0..all.len()
        invariant
            found == leaf_views(all@),
            views(problems@) == start + leaf_problems(found.take(i as int)),
    {
        assert(found.take(i + 1).drop_last() =~= found.take(i as int));
        assert(found.take(i + 1).last() == (all@[i as int].0@, all@[i as int].1));
        if let Some(message) = check_leaf(&all[i].0, all[i].1) {
            let ghost before = leaf_problems(found.take(i as int));
            add_problem(problems, message);
            assert((start + before).push(message@) =~= start + before.push(message@));
        }
    }
    assert(found.take(found.len() as int) =~= found);
    all.len()
}

/// Every signature-backed chain must continue with the same `static_fields`
/// offset. A mismatch means one of them was built from a stale constant.
///
/// Slot 0 is deliberately not checked. The client overwrites it from the
/// chain's signature before reading anything, so its value carries no meaning.
pub fn check_chain_shapes(offsets: &Offsets, problems: &mut Vec<String>) -> (r: usize)
    ensures
        views(final(problems)@) == views(old(problems)@) + shape(backed_chains(*offsets)).1,
        r == 8,
{
    let chains = offsets.signature_backed_chains();
    let ghost all = backed_chains(*offsets);
    let ghost start = views(problems@);
    let mut static_fields: Option<i64> = None;
    assert(views(problems@) =~= start + shape(all.take(0)).1);
    for i in 0..chains.len()
        invariant
            all == chain_views(chains@),
            shape(all.take(i as int)).0 == static_fields,
            views(problems@) == start + shape(all.take(i as int)).1,
    {
        let (name, chain, signature): (&'static str, &Vec<i64>, &Signature) = chains[i];
        assert(all.take(i + 1).drop_last() =~= all.take(i as int));
        assert(all.take(i + 1).last() == (name@, chain@, signature@));
        let ghost before = shape(all.take(i as int)).1;
        if chain.len() < 2 {
            let mut message = name.to_owned();
            message.append(" has ");
            message.append(decimal_text(chain.len() as i128).as_str());
            message.append(
                " element(s); a signature-backed chain needs at least the slot and static_fields",
            );
            add_problem(problems, message);
            assert((start + before).push(message@) =~= start + before.push(message@));
        } else {
            let second: i64 = chain[1];
            let ghost mut so_far = before;
            match static_fields {
                None => {
                    static_fields = Some(second);
                },
                Some(expected) => {
                    if expected != second {
                        let mut message = name.to_owned();
                        message.append("[1] is ");
                        message.append(decimal_text(second as i128).as_str());
                        message.append(" but other chains use ");
                        message.append(decimal_text(expected as i128).as_str());
                        message.append(" for Il2CppClass::static_fields");
                        add_problem(problems, message);
                        assert((start + so_far).push(message@) =~= start + so_far.push(message@));
                        proof {
                            so_far = so_far.push(message@);
                        }
                    }
                },
            }
            if !signature.is_present() {
                let mut message = name.to_owned();
                message.append(
                    " is resolved by signature at runtime but its signature is empty",
                );
                add_problem(problems, message);
                assert((start + so_far).push(message@) =~= start + so_far.push(message@));
            }
        }
    }
    assert(all.take(all.len() as int) =~= all);
    chains.len()
}

fn is_absent(members: &Vec<StructMember>, name: &str) -> (r: Option<String>)
    ensures
        maybe_text(r) == absent(layout_views(members@), name@),
{
    let ghost all = layout_views(members@);
    let mut i: usize = 0;
    while i < members.len()
        invariant
            i <= members@.len(),
            all == layout_views(members@),
            forall|j: int| 0 <= j < i ==> (#[trigger] all[j]).name != name@,
        decreases members@.len() - i,
    {
        assert(all[i as int] == members@[i as int]@);
        if same_text(members[i].name.as_str(), name) {
            assert(all[i as int].name == name@);
            return None;
        }
        i += 1;
    }
    let mut message = "player.struct is missing '".to_owned();
    message.append(name);
    message.append(
        "', which GameReader reads by name -- the client would get no player data from this file",
    );
    Some(message)
}

/// Adds a problem, where there is one, to those that were found since `start`.
fn add_found(problems: &mut Vec<String>, one: Option<String>, start: Ghost<Seq<Seq<char>>>, found: Ghost<Seq<Seq<char>>>)
    requires
        views(old(problems)@) == start@ + found@,
    ensures
        views(final(problems)@) == start@ + (match one {
            Some(message) => found@.push(message@),
            None => found@,
        }),
{
    if let Some(message) = one {
        add_problem(problems, message);
        assert((start@ + found@).push(message@) =~= start@ + found@.push(message@));
    }
}

proof fn lemma_total_bound(members: Seq<StructMemberView>)
    ensures
        -0x8000_0000_0000_0000 * members.len() <= total_size(members) <= 0x7fff_ffff_ffff_ffff
            * members.len(),
    decreases members.len(),
{
    if members.len() > 0 {
        lemma_total_bound(members.drop_last());
    }
}

/// The struct's sizes add up to the buffer length, no member is empty, and every
/// member the client looks up by name is there.
#[verifier::rlimit(40)]
pub fn check_player_struct(offsets: &Offsets, problems: &mut Vec<String>) -> (r: usize)
    ensures
        views(final(problems)@) == views(old(problems)@) + struct_problems(
            layout_views(offsets.player.struct_layout@),
            offsets.player.buffer_length,
        ),
        r == 4,
{
    let player = &offsets.player;
    let members = &player.struct_layout;
    let ghost all = layout_views(members@);
    let ghost start = views(problems@);
    let mut total: i128 = 0;
    let mut has_empty = false;
    for i in 0..members.len()
        invariant
            all == layout_views(members@),
            total == total_size(all.take(i as int)),
            has_empty == exists|j: int| 0 <= j < i && (#[trigger] all[j]).size() <= 0,
    {
        proof {
            lemma_total_bound(all.take(i as int));
        }
        assert(all.take(i + 1).drop_last() =~= all.take(i as int));
        assert(all.take(i + 1).last() == members@[i as int]@);
        assert(all[i as int] == members@[i as int]@);
        let size: i64 = members[i].size();
        total = total + size as i128;
        if size <= 0 {
            has_empty = true;
            assert(all[i as int].size() <= 0);
        }
        proof {
            if has_empty && !(size <= 0) {
                let j = choose|j: int| 0 <= j < i && (#[trigger] all[j]).size() <= 0;
                assert(0 <= j < i + 1 && all[j].size() <= 0);
            }
        }
    }
    assert(all.take(all.len() as int) =~= all);
    let uneven: Option<String> = if total != player.buffer_length as i128 {
        let mut message = "player.struct describes ".to_owned();
        message.append(decimal_text(total).as_str());
        message.append(" bytes but player.bufferLength is ");
        message.append(decimal_text(player.buffer_length as i128).as_str());
        message.append(
            "; the client reads bufferLength bytes and parses them with the struct, so the two have to agree",
        );
        Some(message)
    } else {
        None
    };
    let empty: Option<String> = if has_empty {
        Some("player.struct contains a member of zero or negative size".to_owned())
    } else {
        None
    };
    let ghost none = Seq::<Seq<char>>::empty();
    assert(views(problems@) =~= start + none);
    let ghost p1 = and(none, maybe_text(uneven));
    add_found(problems, uneven, Ghost(start), Ghost(none));
    let ghost p2 = and(p1, maybe_text(empty));
    add_found(problems, empty, Ghost(start), Ghost(p1));
    let ghost p3 = and(p2, absent(all, "id"@));
    add_found(problems, is_absent(members, "id"), Ghost(start), Ghost(p2));
    let ghost p4 = and(p3, absent(all, "outfitsPtr"@));
    add_found(problems, is_absent(members, "outfitsPtr"), Ghost(start), Ghost(p3));
    let ghost p5 = and(p4, absent(all, "rolePtr"@));
    add_found(problems, is_absent(members, "rolePtr"), Ghost(start), Ghost(p4));
    let ghost p6 = and(p5, absent(all, "taskPtr"@));
    add_found(problems, is_absent(members, "taskPtr"), Ghost(start), Ghost(p5));
    let ghost p7 = and(p6, absent(all, "dead"@));
    add_found(problems, is_absent(members, "dead"), Ghost(start), Ghost(p6));
    add_found(problems, is_absent(members, "objectPtr"), Ghost(start), Ghost(p7));
    4
}

fn check_signature(
    generator: &SignatureGenerator,
    image: &Image,
    types: &TypeInfoTable,
    name: &str,
    signature: &Signature,
    of: &str,
) -> (r: Option<String>)
    requires
        generator@ == image@,
    ensures
        maybe_text(r) == signature_problem(image@, types@, name@, signature@, of@),
{
    let mut message = "signatures.".to_owned();
    message.append(name);
    let text = match &signature.sig {
        Some(text) => text,
        None => {
            message.append(" is missing");
            return Some(message);
        },
    };
    let pattern: Pattern = match Pattern::parse(text.as_str()) {
        Ok(pattern) => pattern,
        Err(error) => {
            message.append(" does not parse: ");
            message.append(error.to_string().as_str());
            return Some(message);
        },
    };
    let found: Vec<usize> = pattern.find_all(image.mapped(), 4);
    let ghost sites = all_matches(pattern@, image@.mapped);
    assert(sites.len() <= 4 ==> found@ == sites);
    if found.len() != 1 {
        message.append(" matches ");
        let count: String = if found.len() >= 4 {
            "4 or more".to_owned()
        } else {
            decimal_text(found.len() as i128)
        };
        message.append(count.as_str());
        message.append(
            " times in the module; the client takes the first match, so anything but exactly one is a coin flip on the next build",
        );
        return Some(message);
    }
    let pattern_offset: i64 = match signature.pattern_offset {
        Some(n) => n,
        None => 0,
    };
    let address_offset: i64 = match signature.address_offset {
        Some(n) => n,
        None => 0,
    };
    match generator.resolve_like_the_client(found[0], pattern_offset, address_offset) {
        Err(error) => {
            message.append(" does not resolve: ");
            message.append(error.to_string().as_str());
            Some(message)
        },
        Ok(actual) => match types.slot(of) {
            None => {
                message.append(": ");
                message.append(of);
                message.append(
                    "_TypeInfo is not in script.json, so the signature cannot be checked",
                );
                Some(message)
            },
            Some(want) => {
                if actual == want {
                    return None;
                }
                message.append(" resolves to 0x");
                message.append(capital_hex_text(actual as u128).as_str());
                message.append(" but ");
                message.append(of);
                message.append("_TypeInfo is at 0x");
                message.append(capital_hex_text(want as u128).as_str());
                Some(message)
            },
        },
    }
}

/// Resolves every generated signature the way the client will, and checks it
/// lands on the right type-info slot.
#[verifier::rlimit(40)]
pub fn check_signatures(
    offsets: &Offsets,
    image: &Image,
    types: &TypeInfoTable,
    problems: &mut Vec<String>,
) -> (r: usize)
    ensures
        views(final(problems)@) == views(old(problems)@) + signature_problems(
            *offsets,
            image@,
            types@,
        ),
        r == 9,
{
    let g = SignatureGenerator::new(image);
    let s = &offsets.signatures;
    let ghost start = views(problems@);
    let ghost none = Seq::<Seq<char>>::empty();
    assert(views(problems@) =~= start + none);
    let one = check_signature(&g, image, types, "innerNetClient", &s.inner_net_client, "AmongUsClient");
    let ghost p1 = and(none, maybe_text(one));
    add_found(problems, one, Ghost(start), Ghost(none));
    let one = check_signature(&g, image, types, "meetingHud", &s.meeting_hud, "MeetingHud");
    let ghost p2 = and(p1, maybe_text(one));
    add_found(problems, one, Ghost(start), Ghost(p1));
    let one = check_signature(&g, image, types, "gameData", &s.game_data, "GameData");
    let ghost p3 = and(p2, maybe_text(one));
    add_found(problems, one, Ghost(start), Ghost(p2));
    let one = check_signature(&g, image, types, "shipStatus", &s.ship_status, "ShipStatus");
    let ghost p4 = and(p3, maybe_text(one));
    add_found(problems, one, Ghost(start), Ghost(p3));
    let one = check_signature(&g, image, types, "miniGame", &s.mini_game, "Minigame");
    let ghost p5 = and(p4, maybe_text(one));
    add_found(problems, one, Ghost(start), Ghost(p4));
    let one = check_signature(&g, image, types, "palette", &s.palette, "Palette");
    let ghost p6 = and(p5, maybe_text(one));
    add_found(problems, one, Ghost(start), Ghost(p5));
    let one = check_signature(&g, image, types, "playerControl", &s.player_control, "PlayerControl");
    let ghost p7 = and(p6, maybe_text(one));
    add_found(problems, one, Ghost(start), Ghost(p6));
    let one = check_signature(&g, image, types, "serverManager", &s.server_manager, "ServerManager");
    let ghost p8 = and(p7, maybe_text(one));
    add_found(problems, one, Ghost(start), Ghost(p7));
    let one = check_signature(
        &g,
        image,
        types,
        "gameOptionsManager",
        &s.game_options_manager,
        "GameOptionsManager",
    );
    add_found(problems, one, Ghost(start), Ghost(p8));
    9
}

fn is_stale(image: &Image, name: &str, signature: &Signature) -> (r: Option<String>)
    ensures
        maybe_text(r) == staleness(image@, name@, signature@),
{
    let mut message = name.to_owned();
    let count: Option<usize> = match &signature.sig {
        Some(text) => match Pattern::parse(text.as_str()) {
            Ok(pattern) => Some(pattern.find_all(image.mapped(), 2).len()),
            Err(_) => None,
        },
        None => None,
    };
    match count {
        None => {
            message.append(" is missing or unparseable");
            Some(message)
        },
        Some(n) => {
            if n == 1 {
                None
            } else if n > 1 {
                message.append(" matches more than once");
                Some(message)
            } else {
                message.append(" does not match this build");
                Some(message)
            }
        },
    }
}

/// Checks one hook point and records why it is not usable.
fn check_hook(
    image: &Image,
    name: &str,
    signature: &Signature,
    stale_hooks: &mut Vec<String>,
) -> (r: Option<String>)
    ensures
        maybe_text(r) == hook_problem(image@, name@, signature@),
        views(final(stale_hooks)@) == and(
            views(old(stale_hooks)@),
            staleness(image@, name@, signature@),
        ),
{
    match is_stale(image, name, signature) {
        None => None,
        Some(why) => {
            add_problem(stale_hooks, why);
            let mut message = "signatures.".to_owned();
            message.append(name);
            message.append(
                " does not resolve on this build, and disableWriting is false. The client patches the running game with this address -- writing shellcode to whatever it resolves to instead is not something to ship.",
            );
            Some(message)
        },
    }
}

/// Checks the signatures the generator cannot produce.
///
/// `showModStamp`, `connectFunc`, `fixedUpdateFunc`, `modLateUpdate` and
/// `pingMessageString` do not point at a type-info slot. They are hook points
/// for the shellcode `GameReader` writes into the running game. Which function
/// to detour and where inside it is a decision encoded in those patterns, not
/// something metadata can answer, so they are carried from the base file rather
/// than generated.
///
/// What can be checked is whether they still mean anything on this build, and
/// what happens if they do not:
///
///   * with `disableWriting` off, the client patches the game using these
///     addresses. A signature that does not match exactly once resolves to
///     something arbitrary and the client writes shellcode there. That is a
///     failure.
///   * with `disableWriting` on, nothing reads them. That is a warning, so the
///     staleness stays visible instead of being discovered by whoever turns
///     writing back on.
pub fn check_write_path(
    offsets: &Offsets,
    image: &Image,
    problems: &mut Vec<String>,
    warnings: &mut Vec<String>,
) -> (r: usize)
    ensures
        views(final(problems)@) == views(old(problems)@) + write_problems(*offsets, image@),
        views(final(warnings)@) == views(old(warnings)@) + write_warnings(*offsets, image@),
        r == (if image@.arch == Arch::X86 {
            5int
        } else {
            0int
        }),
{
    let ghost start = views(problems@);
    let ghost none = Seq::<Seq<char>>::empty();
    assert(views(problems@) =~= start + none);
    assert(views(warnings@) =~= views(warnings@) + none);
    // GameReader only scans for these inside an `if (!is_64bit)` branch.
    if image.arch() != Arch::X86 {
        return 0;
    }
    let s = &offsets.signatures;
    let mut stale_hooks: Vec<String> = Vec::new();
    assert(views(stale_hooks@) =~= none);
    let mut found: Vec<String> = Vec::new();
    assert(views(found@) =~= none + none);
    let one = check_hook(image, "showModStamp", &s.show_mod_stamp, &mut stale_hooks);
    let ghost p1 = and(none, maybe_text(one));
    add_found(&mut found, one, Ghost(none), Ghost(none));
    let one = check_hook(image, "connectFunc", &s.connect_func, &mut stale_hooks);
    let ghost p2 = and(p1, maybe_text(one));
    add_found(&mut found, one, Ghost(none), Ghost(p1));
    let one = check_hook(image, "fixedUpdateFunc", &s.fixed_update_func, &mut stale_hooks);
    let ghost p3 = and(p2, maybe_text(one));
    add_found(&mut found, one, Ghost(none), Ghost(p2));
    let one = check_hook(image, "modLateUpdate", &s.mod_late_update, &mut stale_hooks);
    let ghost p4 = and(p3, maybe_text(one));
    add_found(&mut found, one, Ghost(none), Ghost(p3));
    let one = check_hook(image, "pingMessageString", &s.ping_message_string, &mut stale_hooks);
    let ghost p5 = and(p4, maybe_text(one));
    add_found(&mut found, one, Ghost(none), Ghost(p4));
    proof {
        lemma_hooks(*offsets, image@);
        assert(none + p5 =~= p5);
    }
    if offsets.disable_writing {
        if stale_hooks.len() > 0 {
            let mut message = "write-path signatures are stale (".to_owned();
            message.append(join_all(&stale_hooks).as_str());
            message.append(
                "). Harmless while disableWriting is true, since nothing reads them -- but they have to be refreshed by hand before it is turned off. They are hook points for injected shellcode and cannot be generated.",
            );
            let ghost before = views(warnings@);
            add_problem(warnings, message);
            assert(views(warnings@) =~= before + none.push(message@));
        }
    } else {
        append_all(problems, found);
    }
    5
}

fn join_all(parts: &Vec<String>) -> (r: String)
    ensures
        r@ == joined(views(parts@), ", "@),
{
    let mut refs: Vec<&str> = Vec::new();
    for i in 0..parts.len()
        invariant
            refs@.len() == i,
            forall|j: int| 0 <= j < i ==> (#[trigger] refs@[j])@ == parts@[j]@,
    {
        refs.push(parts[i].as_str());
    }
    assert(str_views(refs@) =~= views(parts@));
    join(&refs, ", ")
}

fn append_all(problems: &mut Vec<String>, more: Vec<String>)
    ensures
        views(final(problems)@) == views(old(problems)@) + views(more@),
{
    let ghost start = views(problems@);
    let ghost added = views(more@);
    let mut rest: Vec<String> = more;
    problems.append(&mut rest);
    assert(views(problems@) =~= start + added);
}

proof fn lemma_hooks(offsets: Offsets, image: ImageView)
    ensures
        ({
            let s = offsets.signatures;
            let none = Seq::<Seq<char>>::empty();
            let h1 = hook_problem(image, "showModStamp"@, s.show_mod_stamp@);
            let h2 = hook_problem(image, "connectFunc"@, s.connect_func@);
            let h3 = hook_problem(image, "fixedUpdateFunc"@, s.fixed_update_func@);
            let h4 = hook_problem(image, "modLateUpdate"@, s.mod_late_update@);
            let h5 = hook_problem(image, "pingMessageString"@, s.ping_message_string@);
            let s1 = staleness(image, "showModStamp"@, s.show_mod_stamp@);
            let s2 = staleness(image, "connectFunc"@, s.connect_func@);
            let s3 = staleness(image, "fixedUpdateFunc"@, s.fixed_update_func@);
            let s4 = staleness(image, "modLateUpdate"@, s.mod_late_update@);
            let s5 = staleness(image, "pingMessageString"@, s.ping_message_string@);
            &&& hook_problems(image, hooks(offsets)) == and(
                and(and(and(and(none, h1), h2), h3), h4),
                h5,
            )
            &&& stale(image, hooks(offsets)) == and(and(and(and(and(none, s1), s2), s3), s4), s5)
        }),
{
    let all = hooks(offsets);
    let a4 = all.drop_last();
    let a3 = a4.drop_last();
    let a2 = a3.drop_last();
    let a1 = a2.drop_last();
    let a0 = a1.drop_last();
    let s = offsets.signatures;
    assert(a0 =~= Seq::empty());
    assert(a1.last() == ("showModStamp"@, s.show_mod_stamp@));
    assert(a2.last() == ("connectFunc"@, s.connect_func@));
    assert(a3.last() == ("fixedUpdateFunc"@, s.fixed_update_func@));
    assert(a4.last() == ("modLateUpdate"@, s.mod_late_update@));
    assert(all.last() == ("pingMessageString"@, s.ping_message_string@));
    reveal_with_fuel(hook_problems, 7);
    reveal_with_fuel(stale, 7);
}

/// Every check there is.
pub fn validate(offsets: &Offsets, image: &Image, types: &TypeInfoTable) -> (r: Report)
    ensures
        views(r.problems@) == all_problems(*offsets, image@, types@),
        views(r.warnings@) == write_warnings(*offsets, image@),
        check_count(*offsets, image@) <= usize::MAX ==> r.checks_run == check_count(
            *offsets,
            image@,
        ),
{
    let mut problems: Vec<String> = Vec::new();
    let mut warnings: Vec<String> = Vec::new();
    let ghost none = Seq::<Seq<char>>::empty();
    assert(views(problems@) =~= none);
    assert(views(warnings@) =~= none);
    let sentinels: usize = check_no_sentinels(offsets, &mut problems);
    let shapes: usize = check_chain_shapes(offsets, &mut problems);
    let members: usize = check_player_struct(offsets, &mut problems);
    assert(views(problems@) =~= structural(*offsets));
    let signatures: usize = check_signatures(offsets, image, types, &mut problems);
    let hooks: usize = check_write_path(offsets, image, &mut problems, &mut warnings);
    assert(views(problems@) =~= all_problems(*offsets, image@, types@));
    assert(views(warnings@) =~= write_warnings(*offsets, image@));
    let others: usize = shapes + members + signatures + hooks;
    let checks_run: usize = match sentinels.checked_add(others) {
        Some(count) => count,
        None => usize::MAX,
    };
    Report { problems, warnings, checks_run }
}

/// The subset of checks that need only the file, not the game binary.
///
/// Useful for linting an offsets file in CI, where no Among Us install exists.
pub fn structural_problems(offsets: &Offsets) -> (r: Vec<String>)
    ensures
        views(r@) == structural(*offsets),
{
    let mut problems: Vec<String> = Vec::new();
    assert(views(problems@) =~= Seq::empty());
    let sentinels: usize = check_no_sentinels(offsets, &mut problems);
    let shapes: usize = check_chain_shapes(offsets, &mut problems);
    let members: usize = check_player_struct(offsets, &mut problems);
    assert(views(problems@) =~= structural(*offsets));
    problems
}

/// A file is fit to publish if and only if none of the checks finds anything.
pub proof fn a_file_passes_only_clean(
    offsets: Offsets,
    image: ImageView,
    types: Map<Seq<char>, u64>,
)
    ensures
        all_problems(offsets, image, types).len() == 0 <==> structural(offsets).len() == 0
            && signature_problems(offsets, image, types).len() == 0 && write_problems(
            offsets,
            image,
        ).len() == 0,
{
}

/// Where no leaf is a problem, every integer outside the signatures and the
/// slots that the client replaces is a plausible offset.
pub proof fn no_sentinel_gets_through(all: Seq<Leaf>, i: int)
    requires
        leaf_problems(all).len() == 0,
        0 <= i < all.len(),
        !occurs_at(all[i].0, "signatures."@, 0),
        !replaced_slot(all[i].0),
    ensures
        all[i].1 matches Some(n) ==> 0 <= n <= MAX_PLAUSIBLE_OFFSET,
    decreases all.len(),
{
    if i < all.len() - 1 {
        no_sentinel_gets_through(all.drop_last(), i);
    }
}

/// While the client writes, every hook matches exactly once in a file that passes.
pub proof fn writing_needs_usable_hooks(offsets: Offsets, image: ImageView, i: int)
    requires
        image.arch == Arch::X86,
        !offsets.disable_writing,
        write_problems(offsets, image).len() == 0,
        0 <= i < hooks(offsets).len(),
    ensures
        staleness(image, hooks(offsets)[i].0, hooks(offsets)[i].1) is None,
{
    lemma_usable(image, hooks(offsets), i);
}

proof fn lemma_usable(image: ImageView, all: Seq<(Seq<char>, SigView)>, i: int)
    requires
        hook_problems(image, all).len() == 0,
        0 <= i < all.len(),
    ensures
        staleness(image, all[i].0, all[i].1) is None,
    decreases all.len(),
{
    if i < all.len() - 1 {
        lemma_usable(image, all.drop_last(), i);
    }
}

proof fn lemma_published_checks_out(src: Sources, name: Seq<char>, of: Seq<char>)
    requires
        has_signature(src, of),
        vouched(src, of),
    ensures
        signature_problem(src.image, src.types, name, published(src, of), of) is None,
{
    let s = signature_of(src, of)->Ok_0;
    text_round_trips(s.pattern);
}

/// Where nothing went wrong, every type has its signature.
proof fn lemma_all_signed(src: Sources)
    requires
        problems_of(src, plan(src)).len() == 0,
    ensures
        has_signature(src, "AmongUsClient"@),
        has_signature(src, "MeetingHud"@),
        has_signature(src, "GameData"@),
        has_signature(src, "ShipStatus"@),
        has_signature(src, "Minigame"@),
        has_signature(src, "Palette"@),
        has_signature(src, "PlayerControl"@),
        has_signature(src, "ServerManager"@),
        has_signature(src, "GameOptionsManager"@),
{
    let first = after_chains(Seq::empty());
    assert forall|k: int| 0 <= k < 13 implies #[trigger] plan(src)[k] == first[k] by {}
    assert(plan(src).len() >= 13);
    assert(plan(src)[0] == signature("meetingHud"@, "MeetingHud"@));
    assert(plan(src)[1] == signature("shipStatus"@, "ShipStatus"@));
    assert(plan(src)[2] == signature("miniGame"@, "Minigame"@));
    assert(plan(src)[3] == signature("palette"@, "Palette"@));
    assert(plan(src)[4] == signature("allPlayersPtr"@, "GameData"@));
    assert(plan(src)[6] == signature("gameoptionsData"@, "GameOptionsManager"@));
    assert(plan(src)[8] == signature("serverManager_currentServer"@, "ServerManager"@));
    assert(plan(src)[11] == signature("innerNetClient.base"@, "AmongUsClient"@));
    assert(plan(src)[12] == signature("signatures.playerControl"@, "PlayerControl"@));
    nothing_is_guessed(src, plan(src), 0);
    nothing_is_guessed(src, plan(src), 1);
    nothing_is_guessed(src, plan(src), 2);
    nothing_is_guessed(src, plan(src), 3);
    nothing_is_guessed(src, plan(src), 4);
    nothing_is_guessed(src, plan(src), 6);
    nothing_is_guessed(src, plan(src), 8);
    nothing_is_guessed(src, plan(src), 11);
    nothing_is_guessed(src, plan(src), 12);
}

/// What is generated passes the check of its signatures: each is written out,
/// read again, found at exactly one place and resolved to its slot.
pub proof fn generated_signatures_check_out(src: Sources, offsets: Offsets)
    requires
        problems_of(src, plan(src)).len() == 0,
        offsets_from(src, offsets),
        all_vouched(src),
    ensures
        signature_problems(offsets, src.image, src.types).len() == 0,
{
    lemma_all_signed(src);
    lemma_published_checks_out(src, "innerNetClient"@, "AmongUsClient"@);
    lemma_published_checks_out(src, "meetingHud"@, "MeetingHud"@);
    lemma_published_checks_out(src, "gameData"@, "GameData"@);
    lemma_published_checks_out(src, "shipStatus"@, "ShipStatus"@);
    lemma_published_checks_out(src, "miniGame"@, "Minigame"@);
    lemma_published_checks_out(src, "palette"@, "Palette"@);
    lemma_published_checks_out(src, "playerControl"@, "PlayerControl"@);
    lemma_published_checks_out(src, "serverManager"@, "ServerManager"@);
    lemma_published_checks_out(src, "gameOptionsManager"@, "GameOptionsManager"@);
}

/// Text that starts with something else than white space is not blank.
proof fn lemma_not_blank(s: Seq<char>)
    requires
        s.len() > 0,
        !is_white(s[0]),
    ensures
        trim(s).len() > 0,
    decreases s.len(),
{
    lemma_trim_end_keeps(s);
}

proof fn lemma_trim_end_keeps(s: Seq<char>)
    requires
        s.len() > 0,
        !is_white(s[0]),
    ensures
        trim_end(s).len() > 0,
    decreases s.len(),
{
    if is_white(s.last()) {
        lemma_trim_end_keeps(s.drop_last());
    }
}

/// A pattern that is written out starts with something else than white space.
proof fn lemma_pattern_text_starts(pattern: Seq<Option<u8>>)
    requires
        pattern.len() > 0,
    ensures
        pattern_text(pattern).len() > 0,
        !is_white(pattern_text(pattern)[0]),
    decreases pattern.len(),
{
    if pattern.len() > 1 {
        lemma_pattern_text_starts(pattern.drop_last());
    } else {
        match pattern[0] {
            Some(byte) => {
                let high = (byte / 16) as int;
                assert(0 <= high < 16);
            },
            None => {},
        }
    }
}

proof fn lemma_published_is_present(src: Sources, of: Seq<char>)
    requires
        has_signature(src, of),
        vouched(src, of),
    ensures
        published(src, of).present(),
{
    let s = signature_of(src, of)->Ok_0;
    lemma_pattern_text_starts(s.pattern);
    lemma_not_blank(pattern_text(s.pattern));
}

/// A chain has the slot and `static_fields`, and it has a signature.
spec fn even(chain: Seq<i64>, signature: SigView, static_fields: i64) -> bool {
    chain.len() >= 2 && chain[1] == static_fields && signature.present()
}

proof fn lemma_even_shape(chains: Seq<(Seq<char>, Seq<i64>, SigView)>, static_fields: i64)
    requires
        forall|i: int|
            0 <= i < chains.len() ==> even((#[trigger] chains[i]).1, chains[i].2, static_fields),
    ensures
        shape(chains).1.len() == 0,
        shape(chains).0 == (if chains.len() == 0 {
            None
        } else {
            Some(static_fields)
        }),
    decreases chains.len(),
{
    if chains.len() > 0 {
        let shorter = chains.drop_last();
        assert forall|i: int| 0 <= i < shorter.len() implies even(
            (#[trigger] shorter[i]).1,
            shorter[i].2,
            static_fields,
        ) by {
            assert(shorter[i] == chains[i]);
        }
        lemma_even_shape(shorter, static_fields);
        assert(even(chains[chains.len() - 1].1, chains[chains.len() - 1].2, static_fields));
        assert(chains.last() == chains[chains.len() - 1]);
    }
}

/// Where these chains start as they should and have their signatures, nothing is
/// wrong with their shape.
proof fn lemma_even_chains(offsets: Offsets, static_fields: i64)
    requires
        even(offsets.meeting_hud@, offsets.signatures.meeting_hud@, static_fields),
        even(offsets.all_players_ptr@, offsets.signatures.game_data@, static_fields),
        even(offsets.ship_status@, offsets.signatures.ship_status@, static_fields),
        even(offsets.mini_game@, offsets.signatures.mini_game@, static_fields),
        even(offsets.palette@, offsets.signatures.palette@, static_fields),
        even(offsets.gameoptions_data@, offsets.signatures.game_options_manager@, static_fields),
        even(
            offsets.server_manager_current_server@,
            offsets.signatures.server_manager@,
            static_fields,
        ),
        even(offsets.inner_net_client.base@, offsets.signatures.inner_net_client@, static_fields),
    ensures
        shape(backed_chains(offsets)).1.len() == 0,
{
    let all = backed_chains(offsets);
    assert(all.len() == 8);
    assert(all[0].1 == offsets.meeting_hud@ && all[0].2 == offsets.signatures.meeting_hud@);
    assert(all[1].1 == offsets.all_players_ptr@ && all[1].2 == offsets.signatures.game_data@);
    assert(all[2].1 == offsets.ship_status@ && all[2].2 == offsets.signatures.ship_status@);
    assert(all[3].1 == offsets.mini_game@ && all[3].2 == offsets.signatures.mini_game@);
    assert(all[4].1 == offsets.palette@ && all[4].2 == offsets.signatures.palette@);
    assert(all[5].1 == offsets.gameoptions_data@ && all[5].2
        == offsets.signatures.game_options_manager@);
    assert(all[6].1 == offsets.server_manager_current_server@ && all[6].2
        == offsets.signatures.server_manager@);
    assert(all[7].1 == offsets.inner_net_client.base@ && all[7].2
        == offsets.signatures.inner_net_client@);
    assert forall|i: int| 0 <= i < all.len() implies even(
        (#[trigger] all[i]).1,
        all[i].2,
        static_fields,
    ) by {
        assert(i == 0 || i == 1 || i == 2 || i == 3 || i == 4 || i == 5 || i == 6 || i == 7);
    }
    lemma_even_shape(all, static_fields);
}

/// What is generated passes the check of its chains: each has the slot and
/// `static_fields`, they all agree on `static_fields`, and each has a signature.
#[verifier::rlimit(40)]
pub proof fn generated_chains_have_their_shape(src: Sources, offsets: Offsets)
    requires
        problems_of(src, plan(src)).len() == 0,
        offsets_from(src, offsets),
        all_vouched(src),
    ensures
        shape(backed_chains(offsets)).1.len() == 0,
{
    lemma_all_signed(src);
    lemma_published_is_present(src, "MeetingHud"@);
    lemma_published_is_present(src, "GameData"@);
    lemma_published_is_present(src, "ShipStatus"@);
    lemma_published_is_present(src, "Minigame"@);
    lemma_published_is_present(src, "Palette"@);
    lemma_published_is_present(src, "GameOptionsManager"@);
    lemma_published_is_present(src, "ServerManager"@);
    lemma_published_is_present(src, "AmongUsClient"@);
    lemma_even_chains(offsets, src.static_fields);
}

/// Each field has a member of its name, and no member is empty.
proof fn lemma_laid_members(fields: Seq<RecordField>)
    requires
        forall|i: int|
            0 <= i < fields.len() ==> StructMemberView::value(
                (#[trigger] fields[i]).2,
                fields[i].1,
            ).size() > 0,
    ensures
        forall|i: int|
            0 <= i < laid(fields).0.len() ==> (#[trigger] laid(fields).0[i]).size() > 0,
        forall|i: int|
            0 <= i < fields.len() ==> has_member(laid(fields).0, (#[trigger] fields[i]).1),
    decreases fields.len(),
{
    if fields.len() > 0 {
        let shorter = fields.drop_last();
        assert forall|i: int| 0 <= i < shorter.len() implies StructMemberView::value(
            (#[trigger] shorter[i]).2,
            shorter[i].1,
        ).size() > 0 by {
            assert(shorter[i] == fields[i]);
        }
        lemma_laid_members(shorter);
        lemma_laid(shorter);
        let (members, cursor) = laid(shorter);
        let after = laid(fields).0;
        let last = fields.last();
        assert(fields[fields.len() - 1] == last);
        assert(after[after.len() - 1] == StructMemberView::value(last.2, last.1));
        assert forall|i: int| 0 <= i < members.len() implies after[i] == #[trigger] members[i] by {}
        assert forall|i: int| 0 <= i < after.len() implies (#[trigger] after[i]).size() > 0 by {
            if i < members.len() {
                assert(members[i].size() > 0);
            }
        }
        assert forall|i: int| 0 <= i < fields.len() implies has_member(
            after,
            (#[trigger] fields[i]).1,
        ) by {
            if i < shorter.len() {
                assert(has_member(members, shorter[i].1));
                let k = choose|k: int|
                    0 <= k < members.len() && (#[trigger] members[k]).name == shorter[i].1;
                assert(after[k].name == fields[i].1);
            } else {
                assert(after[after.len() - 1].name == fields[i].1);
            }
        }
    }
}

proof fn lemma_placed(row: Seq<RecordField>, one: RecordField, good: spec_fn(RecordField) -> bool)
    requires
        good(one),
        forall|i: int| 0 <= i < row.len() ==> good(#[trigger] row[i]),
    ensures
        forall|i: int| 0 <= i < placed(row, one).len() ==> good(#[trigger] placed(row, one)[i]),
        placed(row, one).contains(one),
        forall|i: int| 0 <= i < row.len() ==> placed(row, one).contains(#[trigger] row[i]),
    decreases row.len(),
{
    let after = placed(row, one);
    if row.len() > 0 && one.0 < row.last().0 {
        let shorter = row.drop_last();
        assert forall|i: int| 0 <= i < shorter.len() implies good(#[trigger] shorter[i]) by {
            assert(shorter[i] == row[i]);
        }
        lemma_placed(shorter, one, good);
        let inner = placed(shorter, one);
        assert(good(row[row.len() - 1]));
        assert forall|i: int| 0 <= i < after.len() implies good(#[trigger] after[i]) by {
            if i < inner.len() {
                assert(good(inner[i]));
            }
        }
        let k = choose|k: int| 0 <= k < inner.len() && inner[k] == one;
        assert(after[k] == one);
        assert forall|i: int| 0 <= i < row.len() implies after.contains(#[trigger] row[i]) by {
            if i < shorter.len() {
                assert(inner.contains(shorter[i]));
                let n = choose|n: int| 0 <= n < inner.len() && inner[n] == shorter[i];
                assert(after[n] == row[i]);
            } else {
                assert(after[after.len() - 1] == row[i]);
            }
        }
    } else {
        assert(after[row.len() as int] == one);
        assert forall|i: int| 0 <= i < after.len() implies good(#[trigger] after[i]) by {
            if i < row.len() {
                assert(good(row[i]));
            }
        }
        assert forall|i: int| 0 <= i < row.len() implies after.contains(#[trigger] row[i]) by {
            assert(after[i] == row[i]);
        }
    }
}

pub proof fn lemma_by_offset(fields: Seq<RecordField>, good: spec_fn(RecordField) -> bool)
    requires
        forall|i: int| 0 <= i < fields.len() ==> good(#[trigger] fields[i]),
    ensures
        forall|i: int| 0 <= i < by_offset(fields).len() ==> good(#[trigger] by_offset(fields)[i]),
        forall|i: int| 0 <= i < fields.len() ==> by_offset(fields).contains(#[trigger] fields[i]),
    decreases fields.len(),
{
    if fields.len() > 0 {
        let shorter = fields.drop_last();
        assert forall|i: int| 0 <= i < shorter.len() implies good(#[trigger] shorter[i]) by {
            assert(shorter[i] == fields[i]);
        }
        lemma_by_offset(shorter, good);
        assert(good(fields[fields.len() - 1]));
        let row = by_offset(shorter);
        lemma_placed(row, fields.last(), good);
        assert forall|i: int| 0 <= i < fields.len() implies by_offset(fields).contains(
            #[trigger] fields[i],
        ) by {
            if i < shorter.len() {
                assert(row.contains(shorter[i]));
                let k = choose|k: int| 0 <= k < row.len() && row[k] == shorter[i];
                assert(by_offset(fields).contains(row[k]));
            }
        }
    }
}

/// The struct of a padded record passes its check where the record ends at the
/// buffer's end or before it and holds what the client looks up.
proof fn lemma_padded_passes(fields: Seq<RecordField>, end: i64)
    requires
        laid(by_offset(fields)).1 <= end,
        forall|i: int|
            0 <= i < fields.len() ==> StructMemberView::value(
                (#[trigger] fields[i]).2,
                fields[i].1,
            ).size() > 0,
        exists|i: int| 0 <= i < fields.len() && (#[trigger] fields[i]).1 == "id"@,
        exists|i: int| 0 <= i < fields.len() && (#[trigger] fields[i]).1 == "outfitsPtr"@,
        exists|i: int| 0 <= i < fields.len() && (#[trigger] fields[i]).1 == "rolePtr"@,
        exists|i: int| 0 <= i < fields.len() && (#[trigger] fields[i]).1 == "taskPtr"@,
        exists|i: int| 0 <= i < fields.len() && (#[trigger] fields[i]).1 == "dead"@,
        exists|i: int| 0 <= i < fields.len() && (#[trigger] fields[i]).1 == "objectPtr"@,
    ensures
        struct_problems(struct_of(fields, end), end).len() == 0,
{
    let sized = |f: RecordField| StructMemberView::value(f.2, f.1).size() > 0;
    let row = by_offset(fields);
    let (members, cursor) = laid(row);
    let whole = struct_of(fields, end);
    assert forall|i: int| 0 <= i < fields.len() implies sized(#[trigger] fields[i]) by {}
    lemma_by_offset(fields, sized);
    assert forall|i: int| 0 <= i < row.len() implies StructMemberView::value(
        (#[trigger] row[i]).2,
        row[i].1,
    ).size() > 0 by {
        assert(sized(row[i]));
    }
    lemma_laid_members(row);
    lemma_laid(row);
    a_padded_struct_fills_its_buffer(fields, end);
    assert forall|i: int| 0 <= i < whole.len() implies (#[trigger] whole[i]).size() > 0 by {
        if i < members.len() {
            assert(whole[i] == members[i]);
        }
    }
    assert forall|k: int| 0 <= k < fields.len() implies has_member(
        whole,
        (#[trigger] fields[k]).1,
    ) by {
        assert(row.contains(fields[k]));
        let n = choose|n: int| 0 <= n < row.len() && row[n] == fields[k];
        assert(has_member(members, row[n].1));
        let m = choose|m: int| 0 <= m < members.len() && (#[trigger] members[m]).name == row[n].1;
        assert(whole[m].name == fields[k].1);
    }
}

/// How many bytes of the record a field takes.
pub open spec fn field_size(field: RecordField) -> int {
    StructMemberView::value(field.2, field.1).size() as int
}

/// Two fields of the record do not overlap.
pub open spec fn clear_of(a: RecordField, b: RecordField) -> bool {
    a.0 + field_size(a) <= b.0 || b.0 + field_size(b) <= a.0
}

/// The fields of the record do not overlap, none starts before the record, and
/// the pointer to the player's object, which is the last of them here, is the
/// last in the record too.
pub open spec fn well_laid(fields: Seq<RecordField>) -> bool {
    &&& forall|i: int| 0 <= i < fields.len() ==> (#[trigger] fields[i]).0 >= 0
    &&& forall|i: int, j: int|
        0 <= i < j < fields.len() ==> clear_of(#[trigger] fields[i], #[trigger] fields[j])
    &&& forall|i: int| 0 <= i < fields.len() - 1 ==> (#[trigger] fields[i]).0 < fields.last().0
}

/// Every field ends before all that follow start.
pub open spec fn one_after_the_other(row: Seq<RecordField>) -> bool {
    forall|i: int, j: int|
        0 <= i < j < row.len() ==> (#[trigger] row[i]).0 + field_size(row[i]) <= (
        #[trigger] row[j]).0
}

proof fn lemma_placed_apart(row: Seq<RecordField>, one: RecordField)
    requires
        one_after_the_other(row),
        field_size(one) > 0,
        forall|i: int|
            0 <= i < row.len() ==> field_size(#[trigger] row[i]) > 0 && clear_of(row[i], one),
    ensures
        one_after_the_other(placed(row, one)),
        forall|i: int|
            0 <= i < placed(row, one).len() ==> (#[trigger] placed(row, one)[i]) == one
                || row.contains(placed(row, one)[i]),
    decreases row.len(),
{
    let after = placed(row, one);
    if row.len() > 0 {
        let last = row.len() - 1;
        assert(clear_of(row[last], one) && field_size(row[last]) > 0);
        if one.0 < row.last().0 {
            let shorter = row.drop_last();
            let inner = placed(shorter, one);
            assert forall|i: int, j: int| 0 <= i < j < shorter.len() implies (
            #[trigger] shorter[i]).0 + field_size(shorter[i]) <= (#[trigger] shorter[j]).0 by {
                assert(row[i].0 + field_size(row[i]) <= row[j].0);
            }
            assert forall|i: int| 0 <= i < shorter.len() implies field_size(#[trigger] shorter[i])
                > 0 && clear_of(shorter[i], one) by {
                assert(clear_of(row[i], one));
            }
            lemma_placed_apart(shorter, one);
            assert forall|i: int| 0 <= i < inner.len() implies ((#[trigger] inner[i]) == one
                || row.contains(inner[i])) && inner[i].0 + field_size(inner[i])
                <= row.last().0 by {
                if inner[i] != one {
                    let k = choose|k: int| 0 <= k < shorter.len() && shorter[k] == inner[i];
                    assert(row[k] == inner[i]);
                    assert(row[k].0 + field_size(row[k]) <= row[last].0);
                }
            }
            assert forall|i: int| 0 <= i < after.len() implies ((#[trigger] after[i]) == one
                || row.contains(after[i])) by {
                if i < inner.len() {
                    assert(after[i] == inner[i]);
                } else {
                    assert(row[last] == after[i]);
                }
            }
            assert forall|i: int, j: int| 0 <= i < j < after.len() implies (#[trigger] after[i]).0
                + field_size(after[i]) <= (#[trigger] after[j]).0 by {
                assert(after[i] == inner[i]);
                if j < inner.len() {
                    assert(after[j] == inner[j]);
                }
            }
        } else {
            assert forall|i: int| 0 <= i < row.len() implies (#[trigger] row[i]).0 + field_size(
                row[i],
            ) <= one.0 by {
                if i < last {
                    assert(row[i].0 + field_size(row[i]) <= row[last].0);
                }
            }
            assert forall|i: int| 0 <= i < after.len() implies ((#[trigger] after[i]) == one
                || row.contains(after[i])) by {
                if i < row.len() {
                    assert(row[i] == after[i]);
                }
            }
            assert forall|i: int, j: int| 0 <= i < j < after.len() implies (#[trigger] after[i]).0
                + field_size(after[i]) <= (#[trigger] after[j]).0 by {
                assert(after[i] == row[i]);
                if j < row.len() {
                    assert(after[j] == row[j]);
                }
            }
        }
    }
}

pub proof fn lemma_sorted_apart(fields: Seq<RecordField>)
    requires
        forall|i: int| 0 <= i < fields.len() ==> field_size(#[trigger] fields[i]) > 0,
        forall|i: int, j: int|
            0 <= i < j < fields.len() ==> clear_of(#[trigger] fields[i], #[trigger] fields[j]),
    ensures
        one_after_the_other(by_offset(fields)),
        forall|i: int|
            0 <= i < by_offset(fields).len() ==> fields.contains(#[trigger] by_offset(fields)[i]),
    decreases fields.len(),
{
    if fields.len() > 0 {
        let shorter = fields.drop_last();
        let last = fields.len() - 1;
        let row = by_offset(shorter);
        let after = by_offset(fields);
        assert forall|i: int| 0 <= i < shorter.len() implies field_size(#[trigger] shorter[i])
            > 0 by {
            assert(shorter[i] == fields[i]);
        }
        assert forall|i: int, j: int| 0 <= i < j < shorter.len() implies clear_of(
            #[trigger] shorter[i],
            #[trigger] shorter[j],
        ) by {
            assert(clear_of(fields[i], fields[j]));
        }
        lemma_sorted_apart(shorter);
        assert forall|i: int| 0 <= i < row.len() implies field_size(#[trigger] row[i]) > 0
            && clear_of(row[i], fields.last()) && fields.contains(row[i]) by {
            let k = choose|k: int| 0 <= k < shorter.len() && shorter[k] == row[i];
            assert(fields[k] == row[i]);
            assert(clear_of(fields[k], fields[last]));
        }
        assert(field_size(fields[last]) > 0);
        lemma_placed_apart(row, fields.last());
        assert forall|i: int| 0 <= i < after.len() implies fields.contains(
            #[trigger] after[i],
        ) by {
            if after[i] == fields.last() {
                assert(fields[last] == after[i]);
            } else {
                let k = choose|k: int| 0 <= k < row.len() && row[k] == after[i];
                assert(fields.contains(row[k]));
            }
        }
    }
}

/// Fields that follow each other without overlap end with the last of them.
pub proof fn lemma_laid_end(row: Seq<RecordField>)
    requires
        one_after_the_other(row),
        forall|i: int| 0 <= i < row.len() ==> (#[trigger] row[i]).0 >= 0,
    ensures
        row.len() > 0 ==> laid(row).1 == row.last().0 + field_size(row.last()),
    decreases row.len(),
{
    if row.len() > 0 {
        let shorter = row.drop_last();
        let last = row.len() - 1;
        assert(row[last].0 >= 0);
        assert forall|i: int, j: int| 0 <= i < j < shorter.len() implies (
        #[trigger] shorter[i]).0 + field_size(shorter[i]) <= (#[trigger] shorter[j]).0 by {
            assert(row[i].0 + field_size(row[i]) <= row[j].0);
        }
        assert forall|i: int| 0 <= i < shorter.len() implies (#[trigger] shorter[i]).0 >= 0 by {
            assert(row[i].0 >= 0);
        }
        lemma_laid_end(shorter);
        if shorter.len() > 0 {
            assert(row[last - 1].0 + field_size(row[last - 1]) <= row[last].0);
            assert(shorter.last() == row[last - 1]);
        } else {
            assert(laid(shorter).1 == 0);
        }
    }
}

/// A well-laid record ends with the last of its fields.
pub proof fn a_well_laid_record_ends_with_its_last_field(fields: Seq<RecordField>)
    requires
        fields.len() > 0,
        forall|i: int| 0 <= i < fields.len() ==> field_size(#[trigger] fields[i]) > 0,
        well_laid(fields),
    ensures
        laid(by_offset(fields)).1 == fields.last().0 + field_size(fields.last()),
{
    let row = by_offset(fields);
    let last = fields.len() - 1;
    lemma_sorted_apart(fields);
    lemma_by_offset(fields, |f: RecordField| true);
    assert forall|i: int| 0 <= i < row.len() implies (#[trigger] row[i]).0 >= 0 by {
        let k = choose|k: int| 0 <= k < fields.len() && fields[k] == row[i];
        assert(fields[k].0 >= 0);
    }
    lemma_laid_end(row);
    assert(row.contains(fields[last]));
    let k = choose|k: int| 0 <= k < row.len() && row[k] == fields[last];
    let end = row.len() - 1;
    assert(fields.contains(row[end]));
    let n = choose|n: int| 0 <= n < fields.len() && fields[n] == row[end];
    assert(field_size(fields[last]) > 0);
    if k < end {
        assert(row[k].0 + field_size(row[k]) <= row[end].0);
        if n < last {
            assert(fields[n].0 < fields.last().0);
        }
    }
}

/// On either architecture, where the eight fields that are read of the record do
/// not overlap and the pointer to the player's object is the last of them, the
/// members of the struct add up to the bytes that the client reads.
pub proof fn the_struct_describes_what_the_client_reads(src: Sources)
    requires
        buffer_length(src) <= i64::MAX,
        well_laid(record_fields(src)),
    ensures
        total_size(struct_of(record_fields(src), buffer_length(src) as i64)) == buffer_length(src),
        laid(by_offset(record_fields(src))).1 <= buffer_length(src),
        buffer_length(src) == record(src, "_object"@) + src.image.arch.pointer(),
{
    reveal_strlit("SKIP");
    reveal_strlit("BYTE");
    reveal_strlit("UINT");
    let fields = record_fields(src);
    assert("UINT"@[0] == 'U' && "SKIP"@[0] == 'S');
    assert("BYTE"@[0] == 'B');
    assert forall|i: int| 0 <= i < fields.len() implies field_size(#[trigger] fields[i]) > 0 by {
        assert(fields[i].2 == "UINT"@ || fields[i].2 == "BYTE"@);
    }
    a_well_laid_record_ends_with_its_last_field(fields);
    assert(fields.last() == (record(src, "_object"@), "objectPtr"@, "UINT"@));
    assert(0 <= fields[0].0 < fields.last().0);
    a_padded_struct_fills_its_buffer(fields, buffer_length(src) as i64);
}

/// What is generated passes the check of the player struct, on either
/// architecture, where the eight fields that are read of the record do not
/// overlap and the pointer to the player's object is the last of them: the
/// members of the struct add up to the bytes that the client reads.
pub proof fn a_generated_struct_passes_its_check(src: Sources, offsets: Offsets)
    requires
        offsets_from(src, offsets),
        sums_fit(src),
        well_laid(record_fields(src)),
    ensures
        struct_problems(
            layout_views(offsets.player.struct_layout@),
            offsets.player.buffer_length,
        ).len() == 0,
        total_size(layout_views(offsets.player.struct_layout@)) == buffer_length(src),
        offsets.player.buffer_length == buffer_length(src),
{
    the_struct_describes_what_the_client_reads(src);
    a_struct_that_ends_in_time_passes_its_check(src, offsets);
}

/// What is generated passes the check of the player struct, on either
/// architecture, wherever the members end at the end of what the client reads
/// or before it.
pub proof fn a_struct_that_ends_in_time_passes_its_check(src: Sources, offsets: Offsets)
    requires
        offsets_from(src, offsets),
        sums_fit(src),
        laid(by_offset(record_fields(src))).1 <= buffer_length(src),
    ensures
        struct_problems(
            layout_views(offsets.player.struct_layout@),
            offsets.player.buffer_length,
        ).len() == 0,
{
    reveal_strlit("SKIP");
    reveal_strlit("BYTE");
    reveal_strlit("UINT");
    let fields = record_fields(src);
    assert("UINT"@[0] == 'U' && "SKIP"@[0] == 'S');
    assert("BYTE"@[0] == 'B');
    assert forall|i: int| 0 <= i < fields.len() implies StructMemberView::value(
        (#[trigger] fields[i]).2,
        fields[i].1,
    ).size() > 0 by {
        assert(fields[i].2 == "UINT"@ || fields[i].2 == "BYTE"@);
    }
    assert(fields[0].1 == "id"@);
    assert(fields[1].1 == "outfitsPtr"@);
    assert(fields[4].1 == "rolePtr"@);
    assert(fields[5].1 == "taskPtr"@);
    assert(fields[6].1 == "dead"@);
    assert(fields[7].1 == "objectPtr"@);
    lemma_padded_passes(fields, buffer_length(src) as i64);
}

} // verus!
