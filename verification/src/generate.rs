//! Turns a dump plus a binary into an `offsets.json`.
//!
//! Every value here has a stated provenance, which is the whole point:
//!
//!   * **derived** -- read out of `dump.cs` by class and field name;
//!   * **layout** -- follows from the pointer size (a `List<T>` keeps `_items`
//!     two pointers in and `_size` three, an `Il2CppArray` starts its data four
//!     pointers in). Generic type definitions carry no offsets in a dump, so
//!     these cannot be looked up and are computed instead;
//!   * **signature** -- resolved by [`crate::siggen`];
//!   * **carried** -- copied from the architecture's base file because it
//!     describes something no dump can tell us, such as where Unity keeps a
//!     position inside a native `Rigidbody2D`. These are listed in the run
//!     report so they never quietly rot.
//!
//! Nothing is guessed. A field that cannot be resolved is recorded as a problem
//! and the run fails rather than writing a placeholder.
//!
//! [`plan`] lists what is looked up, in order; what a run records and what it
//! produces is stated over it.

use vstd::prelude::*;

use crate::dumpcs::{field_of, static_field_of, ClassView, Dump, FieldView};
use crate::error::{Error, ErrorView, Result};
use crate::offsets::{
    layout_views, no_signature, total_size, InnerNetClient, Offsets, Outfit, Player, SigView,
    Signature, Signatures, StructMember, StructMemberView, SIGNATURE_RESOLVED,
};
use crate::pattern::pattern_text;
use crate::pe::{Image, ImageView};
use crate::scriptjson::TypeInfoTable;
use crate::siggen::{slot_signature, trustworthy, Expectation, SignatureGenerator, SignatureView};
use crate::text::{
    chars_of, contains, has_part, join, joined, lower, lowered, str_views, strip_suffix, views,
    without_suffix,
};

verus! {

/// The handful of numbers that cannot be derived from a dump or from the
/// pointer size, kept in `base/<arch>.json` so they can be corrected without a
/// rebuild.
#[derive(Debug, Clone)]
pub struct BaseConstants {
    /// Offset of `position.x` inside Unity's native `Rigidbody2D`. Native, so
    /// it appears in no managed dump; `position.y` follows four bytes later.
    pub native_rigidbody_position_x: i64,
    /// Tail of the `serverManager_currentServer` chain after `static_fields`.
    /// Walks the singleton to the current region and its name; the shape has
    /// never been re-derived from a dump, so it is carried verbatim.
    pub server_manager_tail: Vec<i64>,
    /// Tail of the vestigial `playerControl_GameOptions` chain. The client
    /// stopped reading it once `newGameOptions` was introduced; it stays in the
    /// file only so the shape matches the hand-written ones.
    pub player_control_game_options_tail: Vec<i64>,
    /// Placeholder values for the write-path function offsets.
    pub function_placeholders: FunctionPlaceholders,
    /// Signatures for the write path (mod stamp, connect hook, ping string).
    /// These point at function bodies rather than at a type-info slot, so the
    /// generator cannot produce them. On x86 the client scans for them
    /// unconditionally, so they have to be present and syntactically valid even
    /// when `disableWriting` is set.
    pub carried_signatures: CarriedSignatures,
    pub flags: Flags,
}

#[derive(Debug, Clone)]
pub struct FunctionPlaceholders {
    pub connect_func: i64,
    pub show_mod_stamp_func: i64,
    pub mod_late_update_func: i64,
    pub fixed_update_func: i64,
    pub ping_message_string: i64,
}

#[derive(Debug, Clone)]
pub struct CarriedSignatures {
    pub show_mod_stamp: Signature,
    pub connect_func: Signature,
    pub fixed_update_func: Signature,
    pub ping_message_string: Signature,
    pub mod_late_update: Signature,
}

impl Default for CarriedSignatures {
    fn default() -> (r: Self)
        ensures
            r.show_mod_stamp@ == no_signature(),
            r.connect_func@ == no_signature(),
            r.fixed_update_func@ == no_signature(),
            r.ping_message_string@ == no_signature(),
            r.mod_late_update@ == no_signature(),
    {
        CarriedSignatures {
            show_mod_stamp: Signature::default(),
            connect_func: Signature::default(),
            fixed_update_func: Signature::default(),
            ping_message_string: Signature::default(),
            mod_late_update: Signature::default(),
        }
    }
}

#[derive(Debug, Clone)]
pub struct Flags {
    pub old_meeting_hud: bool,
    pub disable_writing: bool,
    pub new_game_options: bool,
}

/// Where a produced number came from, for the run report.
#[derive(Debug, Clone, PartialEq, Eq)]
pub enum Provenance {
    Derived(String),
    Layout(String),
    SignatureFor(String),
    Carried(String),
}

/// What a [`Provenance`] says.
pub enum ProvenanceView {
    Derived(Seq<char>),
    Layout(Seq<char>),
    SignatureFor(Seq<char>),
    Carried(Seq<char>),
}

impl View for Provenance {
    type V = ProvenanceView;

    open spec fn view(&self) -> ProvenanceView {
        match self {
            Provenance::Derived(which) => ProvenanceView::Derived(which@),
            Provenance::Layout(what) => ProvenanceView::Layout(what@),
            Provenance::SignatureFor(of) => ProvenanceView::SignatureFor(of@),
            Provenance::Carried(why) => ProvenanceView::Carried(why@),
        }
    }
}

pub struct GenerationOutcome {
    pub offsets: Offsets,
    pub provenance: Vec<(String, Provenance)>,
    pub signature_details: Vec<(String, String)>,
    /// Things that worked but that a maintainer should know about.
    pub notes: Vec<String>,
}

pub open spec fn provenance_views(entries: Seq<(String, Provenance)>) -> Seq<
    (Seq<char>, ProvenanceView),
> {
    entries.map_values(|e: (String, Provenance)| (e.0@, e.1@))
}

pub open spec fn detail_views(entries: Seq<(String, String)>) -> Seq<(Seq<char>, Seq<char>)> {
    entries.map_values(|e: (String, String)| (e.0@, e.1@))
}

/// What the offsets are made from.
pub struct Sources {
    pub dump: Map<Seq<char>, ClassView>,
    pub types: Map<Seq<char>, u64>,
    pub image: ImageView,
    pub base: BaseConstants,
    pub static_fields: i64,
}

/// One thing that is looked up, computed or carried.
pub enum Step {
    Field { label: Seq<char>, class: Seq<char>, candidates: Seq<Seq<char>> },
    StaticField { label: Seq<char>, class: Seq<char>, candidates: Seq<Seq<char>> },
    Layout { label: Seq<char>, description: Seq<char> },
    Carried { label: Seq<char>, why: Seq<char> },
    Signature { label: Seq<char>, of: Seq<char> },
}

/// Names in quotes, as in `["a", "b"]`.
pub open spec fn listed(names: Seq<Seq<char>>) -> Seq<char> {
    "["@ + listed_items(names) + "]"@
}

pub open spec fn listed_items(names: Seq<Seq<char>>) -> Seq<char>
    decreases names.len(),
{
    if names.len() == 0 {
        ""@
    } else {
        listed_items(names.drop_last()) + (if names.len() == 1 {
            "\""@
        } else {
            ", \""@
        }) + names.last() + "\""@
    }
}

/// Whether one name is part of the other, whatever the case of their letters.
pub open spec fn resembles(name: Seq<char>, candidate: Seq<char>) -> bool {
    contains(lower(name), lower(candidate)) || contains(lower(candidate), lower(name))
}

/// Whether a field name resembles one of the candidates.
pub open spec fn near(name: Seq<char>, candidates: Seq<Seq<char>>) -> bool {
    exists|i: int| 0 <= i < candidates.len() && resembles(name, #[trigger] candidates[i])
}

/// The first five fields of a class that resemble one of the candidates.
pub open spec fn near_misses(class: ClassView, candidates: Seq<Seq<char>>) -> Seq<Seq<char>> {
    let all = class.fields.map_values(|f: (Seq<char>, FieldView)| f.0).filter(
        |name: Seq<char>| near(name, candidates),
    );
    if all.len() <= 5 {
        all
    } else {
        all.take(5)
    }
}

/// Why none of the candidates was found.
pub open spec fn missing(
    dump: Map<Seq<char>, ClassView>,
    label: Seq<char>,
    class: Seq<char>,
    candidates: Seq<Seq<char>>,
) -> Seq<char> {
    if dump.contains_key(class) {
        let similar = near_misses(dump[class], candidates);
        label + ": "@ + class + " has none of "@ + listed(candidates) + (if similar.len() == 0 {
            ""@
        } else {
            " (similar fields present: "@ + joined(similar, ", "@) + ")"@
        })
    } else {
        label + ": class '"@ + class
            + "' is not in this dump at all -- it was renamed, removed, or the dump is incomplete"@
    }
}

/// The signature that is generated for a type.
pub open spec fn signature_of(src: Sources, of: Seq<char>) -> std::result::Result<
    SignatureView,
    ErrorView,
> {
    slot_signature(src.image, src.types[of])
}

/// Whether a type has a slot and a signature was generated for it.
pub open spec fn has_signature(src: Sources, of: Seq<char>) -> bool {
    src.types.contains_key(of) && signature_of(src, of) is Ok
}

/// The signature as it is published; nothing where there is none.
pub open spec fn published(src: Sources, of: Seq<char>) -> SigView {
    if has_signature(src, of) {
        let s = signature_of(src, of)->Ok_0;
        SigView {
            sig: Some(pattern_text(s.pattern)),
            pattern_offset: Some(s.pattern_offset),
            address_offset: Some(s.address_offset),
        }
    } else {
        no_signature()
    }
}

/// The signature of a type, where one was generated, keeps what is promised of
/// every signature.
pub open spec fn vouched(src: Sources, of: Seq<char>) -> bool {
    has_signature(src, of) ==> trustworthy(
        src.image,
        signature_of(src, of)->Ok_0,
        Expectation::Slot(src.types[of]),
    )
}

/// Every signature that is generated keeps what is promised of it.
pub open spec fn all_vouched(src: Sources) -> bool {
    &&& vouched(src, "AmongUsClient"@)
    &&& vouched(src, "MeetingHud"@)
    &&& vouched(src, "GameData"@)
    &&& vouched(src, "ShipStatus"@)
    &&& vouched(src, "Minigame"@)
    &&& vouched(src, "Palette"@)
    &&& vouched(src, "PlayerControl"@)
    &&& vouched(src, "ServerManager"@)
    &&& vouched(src, "GameOptionsManager"@)
}

/// What goes wrong in a step.
pub open spec fn step_problem(src: Sources, step: Step) -> Option<Seq<char>> {
    match step {
        Step::Field { label, class, candidates } => if field_of(src.dump, class, candidates)
            is None {
            Some(missing(src.dump, label, class, candidates))
        } else {
            None
        },
        Step::StaticField { label, class, candidates } => if static_field_of(
            src.dump,
            class,
            candidates,
        ) is None {
            Some(missing(src.dump, label, class, candidates))
        } else {
            None
        },
        Step::Signature { label, of } => if !src.types.contains_key(of) {
            Some(
                label + ": no "@ + of
                    + "_TypeInfo in script.json -- the class was renamed or removed, so its signature cannot be generated"@,
            )
        } else {
            match signature_of(src, of) {
                Ok(_) => None,
                Err(error) => Some(
                    label + ": signature for "@ + of + " failed: "@ + error.text(),
                ),
            }
        },
        Step::Layout { label: _, description: _ } => None,
        Step::Carried { label: _, why: _ } => None,
    }
}

/// Where the value of a step comes from.
pub open spec fn step_provenance(src: Sources, step: Step) -> Option<
    (Seq<char>, ProvenanceView),
> {
    match step {
        Step::Field { label, class, candidates } => match field_of(src.dump, class, candidates) {
            Some((_, which)) => Some((label, ProvenanceView::Derived(which))),
            None => None,
        },
        Step::StaticField { label, class, candidates } => match static_field_of(
            src.dump,
            class,
            candidates,
        ) {
            Some((_, which)) => Some((label, ProvenanceView::Derived(which))),
            None => None,
        },
        Step::Signature { label, of } => if has_signature(src, of) {
            Some((label, ProvenanceView::SignatureFor(of)))
        } else {
            None
        },
        Step::Layout { label, description } => Some((label, ProvenanceView::Layout(description))),
        Step::Carried { label, why } => Some((label, ProvenanceView::Carried(why))),
    }
}

/// What a maintainer should know of a step: that the first of several names is gone.
pub open spec fn step_note(src: Sources, step: Step) -> Option<Seq<char>> {
    match step {
        Step::Field { label, class, candidates } => match field_of(src.dump, class, candidates) {
            Some((_, which)) => if candidates.len() > 1 && strip_suffix(which, candidates[0])
                is None {
                Some(
                    label + ": "@ + class + "."@ + candidates[0] + " is gone in this build; used "@
                        + which + " instead"@,
                )
            } else {
                None
            },
            None => None,
        },
        _ => None,
    }
}

/// What is told of the signature of a step.
pub open spec fn step_detail(src: Sources, step: Step) -> Option<(Seq<char>, Seq<char>)> {
    match step {
        Step::Signature { label: _, of } => if has_signature(src, of) {
            Some((of, signature_of(src, of)->Ok_0.description()))
        } else {
            None
        },
        _ => None,
    }
}

/// `all` with one more at its end, where there is one.
pub open spec fn and<T>(all: Seq<T>, one: Option<T>) -> Seq<T> {
    match one {
        Some(one) => all.push(one),
        None => all,
    }
}

/// What goes wrong in these steps, in order.
pub open spec fn problems_of(src: Sources, steps: Seq<Step>) -> Seq<Seq<char>>
    decreases steps.len(),
{
    if steps.len() == 0 {
        Seq::empty()
    } else {
        and(problems_of(src, steps.drop_last()), step_problem(src, steps.last()))
    }
}

/// Where the values of these steps come from, in order.
pub open spec fn provenance_of(src: Sources, steps: Seq<Step>) -> Seq<(Seq<char>, ProvenanceView)>
    decreases steps.len(),
{
    if steps.len() == 0 {
        Seq::empty()
    } else {
        and(provenance_of(src, steps.drop_last()), step_provenance(src, steps.last()))
    }
}

/// What a maintainer should know of these steps, in order.
pub open spec fn notes_of(src: Sources, steps: Seq<Step>) -> Seq<Seq<char>>
    decreases steps.len(),
{
    if steps.len() == 0 {
        Seq::empty()
    } else {
        and(notes_of(src, steps.drop_last()), step_note(src, steps.last()))
    }
}

/// What is told of the signatures of these steps, in order.
pub open spec fn details_of(src: Sources, steps: Seq<Step>) -> Seq<(Seq<char>, Seq<char>)>
    decreases steps.len(),
{
    if steps.len() == 0 {
        Seq::empty()
    } else {
        and(details_of(src, steps.drop_last()), step_detail(src, steps.last()))
    }
}

/// Where nothing went wrong, nothing is a placeholder: every field of the steps
/// was found in the dump and every signature was generated.
pub proof fn nothing_is_guessed(src: Sources, steps: Seq<Step>, i: int)
    requires
        problems_of(src, steps).len() == 0,
        0 <= i < steps.len(),
    ensures
        match steps[i] {
            Step::Field { label: _, class, candidates } => field_of(src.dump, class, candidates)
                is Some,
            Step::StaticField { label: _, class, candidates } => static_field_of(
                src.dump,
                class,
                candidates,
            ) is Some,
            Step::Signature { label: _, of } => has_signature(src, of),
            _ => true,
        },
    decreases steps.len(),
{
    if i < steps.len() - 1 {
        nothing_is_guessed(src, steps.drop_last(), i);
    }
}

pub open spec fn one(name: Seq<char>) -> Seq<Seq<char>> {
    Seq::empty().push(name)
}

pub open spec fn two(name: Seq<char>, other: Seq<char>) -> Seq<Seq<char>> {
    Seq::empty().push(name).push(other)
}

/// The offset of the first candidate that is found; zero where none is, which
/// is a problem and keeps anything from being written.
pub open spec fn offset_of(src: Sources, class: Seq<char>, candidates: Seq<Seq<char>>) -> i64 {
    match field_of(src.dump, class, candidates) {
        Some((offset, _)) => offset,
        None => 0,
    }
}

/// As [`offset_of`], for static fields.
pub open spec fn static_offset_of(src: Sources, class: Seq<char>, candidates: Seq<Seq<char>>) -> i64 {
    match static_field_of(src.dump, class, candidates) {
        Some((offset, _)) => offset,
        None => 0,
    }
}

pub open spec fn field(label: Seq<char>, class: Seq<char>, name: Seq<char>) -> Step {
    Step::Field { label, class, candidates: one(name) }
}

pub open spec fn either(
    label: Seq<char>,
    class: Seq<char>,
    name: Seq<char>,
    other: Seq<char>,
) -> Step {
    Step::Field { label, class, candidates: two(name, other) }
}

pub open spec fn static_field(label: Seq<char>, class: Seq<char>, name: Seq<char>) -> Step {
    Step::StaticField { label, class, candidates: one(name) }
}

pub open spec fn layout(label: Seq<char>, description: Seq<char>) -> Step {
    Step::Layout { label, description }
}

pub open spec fn carried(label: Seq<char>, why: Seq<char>) -> Step {
    Step::Carried { label, why }
}

pub open spec fn signature(label: Seq<char>, of: Seq<char>) -> Step {
    Step::Signature { label, of }
}

/// The chains that start at a static class, and what is carried to end them.
pub open spec fn after_chains(before: Seq<Step>) -> Seq<Step> {
    before
        .push(signature("meetingHud"@, "MeetingHud"@))
        .push(signature("shipStatus"@, "ShipStatus"@))
        .push(signature("miniGame"@, "Minigame"@))
        .push(signature("palette"@, "Palette"@))
        .push(signature("allPlayersPtr"@, "GameData"@))
        .push(field("allPlayersPtr[3]"@, "GameData"@, "AllPlayers"@))
        .push(signature("gameoptionsData"@, "GameOptionsManager"@))
        .push(field("gameoptionsData[3]"@, "GameOptionsManager"@, "currentGameOptions"@))
        .push(signature("serverManager_currentServer"@, "ServerManager"@))
        .push(
            carried(
                "serverManager_currentServer tail"@,
                "singleton walk to the current region name; never re-derived from a dump"@,
            ),
        )
        .push(
            carried(
                "playerControl_GameOptions"@,
                "vestigial; the client stopped reading it when newGameOptions arrived"@,
            ),
        )
        .push(signature("innerNetClient.base"@, "AmongUsClient"@))
        .push(signature("signatures.playerControl"@, "PlayerControl"@))
}

/// What doors and a player's position are read from.
pub open spec fn after_position(before: Seq<Step>) -> Seq<Step> {
    before
        .push(field("door_isOpen"@, "PlainDoor"@, "Open"@))
        .push(field("deconDoorUpperOpen[0]"@, "DeconSystem"@, "UpperDoor"@))
        .push(field("deconDoorLowerOpen[0]"@, "DeconSystem"@, "LowerDoor"@))
        .push(field("player.cosmetics"@, "PlayerControl"@, "cosmetics"@))
        .push(field("player.NetTransform"@, "PlayerControl"@, "NetTransform"@))
        .push(field("player.body"@, "CustomNetworkTransform"@, "body"@))
        .push(
            layout(
                "player.localX[2]"@,
                "UnityEngine.Object.m_CachedPtr, first field after the object header"@,
            ),
        )
        .push(
            carried(
                "player.localX[3]"@,
                "position.x inside the native Rigidbody2D; native layout, absent from any dump"@,
            ),
        )
}

/// A field of the player record.
pub open spec fn record_field(name: Seq<char>, of: Seq<char>) -> Step {
    field("player.struct."@ + name, "NetworkedPlayerInfo"@, of)
}

/// The fields of the player record that the client reads.
pub open spec fn after_record(before: Seq<Step>) -> Seq<Step> {
    before
        .push(record_field("id"@, "PlayerId"@))
        .push(record_field("outfitsPtr"@, "Outfits"@))
        .push(record_field("playerLevel"@, "PlayerLevel"@))
        .push(record_field("disconnected"@, "Disconnected"@))
        .push(record_field("rolePtr"@, "Role"@))
        .push(record_field("taskPtr"@, "Tasks"@))
        .push(record_field("dead"@, "IsDead"@))
        .push(record_field("objectPtr"@, "_object"@))
}

/// What else is read of a player.
pub open spec fn after_player(before: Seq<Step>) -> Seq<Step> {
    before
        .push(field("player.isDummy"@, "PlayerControl"@, "isDummy"@))
        .push(field("player.isLocal[1]"@, "CosmeticsLayer"@, "localPlayer"@))
        .push(
            layout(
                "player.bufferLength"@,
                "end of the last field read from NetworkedPlayerInfo"@,
            ),
        )
        .push(field("player.inVent"@, "PlayerControl"@, "inVent"@))
        .push(field("player.clientId"@, "InnerNetObject"@, "OwnerId"@))
        .push(
            field(
                "player.currentOutfit"@,
                "PlayerControl"@,
                "<CurrentOutfitType>k__BackingField"@,
            ),
        )
        .push(field("player.roleTeam"@, "RoleBehaviour"@, "TeamType"@))
        .push(field("player.nameText[1]"@, "CosmeticsLayer"@, "nameText"@))
        .push(field("player.nameText[2]"@, "TMP_Text"@, "m_text"@))
}

/// What is read of an outfit.
pub open spec fn after_outfit(before: Seq<Step>) -> Seq<Step> {
    before
        .push(field("player.outfit.colorId"@, "NetworkedPlayerInfo.PlayerOutfit"@, "ColorId"@))
        .push(field("player.outfit.hatId"@, "NetworkedPlayerInfo.PlayerOutfit"@, "HatId"@))
        .push(field("player.outfit.skinId"@, "NetworkedPlayerInfo.PlayerOutfit"@, "SkinId"@))
        .push(field("player.outfit.visorId"@, "NetworkedPlayerInfo.PlayerOutfit"@, "VisorId"@))
        .push(
            either(
                "player.outfit.playerName"@,
                "NetworkedPlayerInfo.PlayerOutfit"@,
                "PlayerName"@,
                "_playerName"@,
            ),
        )
}

/// What is read of the client. `GameMode` was renamed in 2026.8.18, same
/// offset; both names are tried so a rename does not silently become a wrong
/// number.
pub open spec fn after_client(before: Seq<Step>) -> Seq<Step> {
    before
        .push(field("innerNetClient.networkAddress"@, "InnerNetClient"@, "networkAddress"@))
        .push(field("innerNetClient.networkPort"@, "InnerNetClient"@, "networkPort"@))
        .push(
            either("innerNetClient.gameMode"@, "InnerNetClient"@, "GameMode"@, "NetworkMode"@),
        )
        .push(field("innerNetClient.gameId"@, "InnerNetClient"@, "GameId"@))
        .push(field("innerNetClient.hostId"@, "InnerNetClient"@, "HostId"@))
        .push(field("innerNetClient.clientId"@, "InnerNetClient"@, "ClientId"@))
        .push(field("innerNetClient.gameState"@, "InnerNetClient"@, "GameState"@))
        .push(field("innerNetClient.onlineScene"@, "AmongUsClient"@, "OnlineScene"@))
        .push(field("innerNetClient.mainMenuScene"@, "AmongUsClient"@, "MainMenuScene"@))
}

/// The write-path signatures, where the base file has them.
pub open spec fn after_write_path(src: Sources, before: Seq<Step>) -> Seq<Step> {
    if src.base.carried_signatures.show_mod_stamp@.present() {
        before.push(
            carried(
                "signatures (write path)"@,
                "function-body signatures for the mod stamp and connect hook; only used when disableWriting is false"@,
            ),
        )
    } else {
        before
    }
}

/// Everything else, in the order of the file.
pub open spec fn after_rest(before: Seq<Step>) -> Seq<Step> {
    before
        .push(layout("objectCachePtr"@, "Il2CppObject header"@))
        .push(field("meetingHudState"@, "MeetingHud"@, "state"@))
        .push(layout("allPlayers"@, "List<T>::_items"@))
        .push(layout("playerCount"@, "List<T>::_size"@))
        .push(layout("playerAddrPtr"@, "Il2CppArray first element"@))
        .push(field("shipStatus_systems"@, "ShipStatus"@, "Systems"@))
        .push(field("shipStatus_map"@, "ShipStatus"@, "Type"@))
        .push(field("shipstatus_allDoors"@, "ShipStatus"@, "AllDoors"@))
        .push(field("door_doorId"@, "OpenableDoor"@, "Id"@))
        .push(
            field(
                "hqHudSystemType_CompletedConsoles"@,
                "HqHudSystemType"@,
                "CompletedConsoles"@,
            ),
        )
        .push(layout("hqHudSystemType_CompletedConsoles[1]"@, "HashSet<T>::_count"@))
        .push(
            field(
                "HudOverrideSystemType_isActive"@,
                "HudOverrideSystemType"@,
                "<IsActive>k__BackingField"@,
            ),
        )
        .push(
            field(
                "planetSurveillanceMinigame_currentCamera"@,
                "PlanetSurveillanceMinigame"@,
                "currentCamera"@,
            ),
        )
        .push(
            field(
                "planetSurveillanceMinigame_camarasCount"@,
                "PlanetSurveillanceMinigame"@,
                "survCameras"@,
            ),
        )
        .push(
            layout("planetSurveillanceMinigame_camarasCount[1]"@, "Il2CppArray::max_length"@),
        )
        .push(
            field(
                "surveillanceMinigame_FilteredRoomsCount"@,
                "SurveillanceMinigame"@,
                "FilteredRooms"@,
            ),
        )
        .push(
            layout("surveillanceMinigame_FilteredRoomsCount[1]"@, "Il2CppArray::max_length"@),
        )
        .push(either("lightRadius[0]"@, "PlayerControl"@, "lightSource"@, "myLight"@))
        .push(either("lightRadius[1]"@, "LightSource"@, "viewDistance"@, "LightRadius"@))
        .push(static_field("palette_playercolor"@, "Palette"@, "PlayerColors"@))
        .push(static_field("palette_shadowColor"@, "Palette"@, "ShadowColors"@))
        .push(
            field("gameOptions_MapId"@, "NormalGameOptionsV11"@, "<MapId>k__BackingField"@),
        )
        .push(
            field(
                "gameOptions_MaxPLayers"@,
                "NormalGameOptionsV11"@,
                "<MaxPlayers>k__BackingField"@,
            ),
        )
}

/// What a run looks up, computes and carries, in order.
pub open spec fn plan(src: Sources) -> Seq<Step> {
    after_rest(
        after_write_path(
            src,
            after_client(
                after_outfit(
                    after_player(after_record(after_position(after_chains(Seq::empty())))),
                ),
            ),
        ),
    )
}

/// One field of the player record, as `(offset, name, kind)`.
pub type RecordField = (i64, Seq<char>, Seq<char>);

/// `one` put in its place in a row that is sorted by offset, behind those of its
/// own offset.
pub open spec fn placed(row: Seq<RecordField>, one: RecordField) -> Seq<RecordField>
    decreases row.len(),
{
    if row.len() > 0 && one.0 < row.last().0 {
        placed(row.drop_last(), one).push(row.last())
    } else {
        row.push(one)
    }
}

/// The fields sorted by offset; those of one offset stay in their order.
pub open spec fn by_offset(fields: Seq<RecordField>) -> Seq<RecordField>
    decreases fields.len(),
{
    if fields.len() == 0 {
        Seq::empty()
    } else {
        placed(by_offset(fields.drop_last()), fields.last())
    }
}

/// The members for these fields with the gaps padded, and where they end.
pub open spec fn laid(fields: Seq<RecordField>) -> (Seq<StructMemberView>, int)
    decreases fields.len(),
{
    if fields.len() == 0 {
        (Seq::empty(), 0)
    } else {
        let (members, cursor) = laid(fields.drop_last());
        let (offset, name, kind) = fields.last();
        let member = StructMemberView::value(kind, name);
        if offset > cursor {
            (
                members.push(StructMemberView::padding((offset - cursor) as i64)).push(member),
                offset + member.size(),
            )
        } else {
            (members.push(member), cursor + member.size())
        }
    }
}

/// The members for these fields, sorted by offset, with the gaps padded and the
/// rest up to `end` too.
pub open spec fn struct_of(fields: Seq<RecordField>, end: i64) -> Seq<StructMemberView> {
    let (members, cursor) = laid(by_offset(fields));
    if cursor < end {
        members.push(StructMemberView::padding((end - cursor) as i64))
    } else {
        members
    }
}

proof fn lemma_total_size_push(members: Seq<StructMemberView>, one: StructMemberView)
    ensures
        total_size(members.push(one)) == total_size(members) + one.size(),
{
    assert(members.push(one).drop_last() =~= members);
}

pub proof fn lemma_laid(fields: Seq<RecordField>)
    ensures
        total_size(laid(fields).0) == laid(fields).1,
        0 <= laid(fields).1 <= i64::MAX + 4 * fields.len(),
    decreases fields.len(),
{
    if fields.len() > 0 {
        lemma_laid(fields.drop_last());
        let (members, cursor) = laid(fields.drop_last());
        let (offset, name, kind) = fields.last();
        let member = StructMemberView::value(kind, name);
        if offset > cursor {
            let pad = StructMemberView::padding((offset - cursor) as i64);
            lemma_total_size_push(members, pad);
            lemma_total_size_push(members.push(pad), member);
        } else {
            lemma_total_size_push(members, member);
        }
    }
}

/// The members of a padded struct add up to where its last field ends, or to
/// `end` where that is further: the client reads that many bytes and parses
/// them with the struct.
pub proof fn a_padded_struct_fills_its_buffer(fields: Seq<RecordField>, end: i64)
    ensures
        total_size(struct_of(fields, end)) == (if laid(by_offset(fields)).1 < end {
            end as int
        } else {
            laid(by_offset(fields)).1
        }),
{
    lemma_laid(by_offset(fields));
    let (members, cursor) = laid(by_offset(fields));
    if cursor < end {
        lemma_total_size_push(members, StructMemberView::padding((end - cursor) as i64));
    }
}

pub open spec fn record(src: Sources, of: Seq<char>) -> i64 {
    offset_of(src, "NetworkedPlayerInfo"@, one(of))
}

/// The fields of the player record that the client reads.
pub open spec fn record_fields(src: Sources) -> Seq<RecordField> {
    Seq::empty()
        .push((record(src, "PlayerId"@), "id"@, "UINT"@))
        .push((record(src, "Outfits"@), "outfitsPtr"@, "UINT"@))
        .push((record(src, "PlayerLevel"@), "playerLevel"@, "UINT"@))
        .push((record(src, "Disconnected"@), "disconnected"@, "UINT"@))
        .push((record(src, "Role"@), "rolePtr"@, "UINT"@))
        .push((record(src, "Tasks"@), "taskPtr"@, "UINT"@))
        .push((record(src, "IsDead"@), "dead"@, "BYTE"@))
        .push((record(src, "_object"@), "objectPtr"@, "UINT"@))
}

/// How many bytes of the player record the client reads.
pub open spec fn buffer_length(src: Sources) -> int {
    match field_of(src.dump, "NetworkedPlayerInfo"@, one("_object"@)) {
        Some((offset, _)) => offset + src.image.arch.pointer(),
        None => 2 * src.image.arch.pointer(),
    }
}

/// The two sums that are published fit in 64 bits.
pub open spec fn sums_fit(src: Sources) -> bool {
    src.base.native_rigidbody_position_x + 4 <= i64::MAX && buffer_length(src) <= i64::MAX
}

/// Chain head for a static class: signature slot, `static_fields`, then
/// dereference to the singleton `Instance`.
pub open spec fn chain(src: Sources) -> Seq<i64> {
    Seq::empty().push(SIGNATURE_RESOLVED).push(src.static_fields).push(0)
}

/// Chain head that stops at `static_fields`, for classes whose values are
/// statics rather than instance fields.
pub open spec fn block(src: Sources) -> Seq<i64> {
    Seq::empty().push(SIGNATURE_RESOLVED).push(src.static_fields)
}

pub open spec fn just(n: i64) -> Seq<i64> {
    Seq::empty().push(n)
}

/// What is read from one field.
pub open spec fn value(src: Sources, class: Seq<char>, name: Seq<char>) -> i64 {
    offset_of(src, class, one(name))
}

pub open spec fn position(src: Sources, tail: int) -> Seq<i64> {
    Seq::empty()
        .push(value(src, "PlayerControl"@, "NetTransform"@))
        .push(value(src, "CustomNetworkTransform"@, "body"@))
        .push((2 * src.image.arch.pointer()) as i64)
        .push(tail as i64)
}

/// `outfit` is what the sources say.
pub open spec fn outfit_from(src: Sources, outfit: Outfit) -> bool {
    let class = "NetworkedPlayerInfo.PlayerOutfit"@;
    &&& outfit.color_id@ == just(value(src, class, "ColorId"@))
    &&& outfit.hat_id@ == just(value(src, class, "HatId"@))
    &&& outfit.skin_id@ == just(value(src, class, "SkinId"@))
    &&& outfit.visor_id@ == just(value(src, class, "VisorId"@))
    &&& outfit.player_name@ == just(offset_of(src, class, two("PlayerName"@, "_playerName"@)))
}

/// `player` is what the sources say.
pub open spec fn player_from(src: Sources, player: Player) -> bool {
    let x = src.base.native_rigidbody_position_x as int;
    let cosmetics = value(src, "PlayerControl"@, "cosmetics"@);
    &&& layout_views(player.struct_layout@) == struct_of(
        record_fields(src),
        buffer_length(src) as i64,
    )
    &&& player.is_dummy@ == just(value(src, "PlayerControl"@, "isDummy"@))
    &&& player.is_local@ == just(cosmetics).push(value(src, "CosmeticsLayer"@, "localPlayer"@))
    &&& player.local_x@ == position(src, x)
    &&& player.local_y@ == position(src, x + 4)
    &&& player.remote_x@ == position(src, x)
    &&& player.remote_y@ == position(src, x + 4)
    &&& player.buffer_length == buffer_length(src)
    &&& player.offsets@ == just(0).push(0)
    &&& player.in_vent@ == just(value(src, "PlayerControl"@, "inVent"@))
    &&& player.client_id@ == just(value(src, "InnerNetObject"@, "OwnerId"@))
    &&& player.current_outfit@ == just(
        value(src, "PlayerControl"@, "<CurrentOutfitType>k__BackingField"@),
    )
    &&& player.role_team@ == just(value(src, "RoleBehaviour"@, "TeamType"@))
    &&& player.name_text@ == just(cosmetics).push(value(src, "CosmeticsLayer"@, "nameText"@)).push(
        value(src, "TMP_Text"@, "m_text"@),
    )
    &&& outfit_from(src, player.outfit)
}

/// `client` is what the sources say.
pub open spec fn client_from(src: Sources, client: InnerNetClient) -> bool {
    let class = "InnerNetClient"@;
    &&& client.base@ == chain(src)
    &&& client.network_address == value(src, class, "networkAddress"@)
    &&& client.network_port == value(src, class, "networkPort"@)
    &&& client.game_mode == offset_of(src, class, two("GameMode"@, "NetworkMode"@))
    &&& client.game_id == value(src, class, "GameId"@)
    &&& client.host_id == value(src, class, "HostId"@)
    &&& client.client_id == value(src, class, "ClientId"@)
    &&& client.game_state == value(src, class, "GameState"@)
    &&& client.online_scene == value(src, "AmongUsClient"@, "OnlineScene"@)
    &&& client.main_menu_scene == value(src, "AmongUsClient"@, "MainMenuScene"@)
}

/// The signatures that are generated are what the sources say.
pub open spec fn generated_from(src: Sources, signatures: Signatures) -> bool {
    &&& signatures.inner_net_client@ == published(src, "AmongUsClient"@)
    &&& signatures.meeting_hud@ == published(src, "MeetingHud"@)
    &&& signatures.game_data@ == published(src, "GameData"@)
    &&& signatures.ship_status@ == published(src, "ShipStatus"@)
    &&& signatures.mini_game@ == published(src, "Minigame"@)
    &&& signatures.palette@ == published(src, "Palette"@)
    &&& signatures.player_control@ == published(src, "PlayerControl"@)
    &&& signatures.server_manager@ == published(src, "ServerManager"@)
    &&& signatures.game_options_manager@ == published(src, "GameOptionsManager"@)
}

/// The signatures that are carried are those of the base file.
pub open spec fn carried_from(src: Sources, signatures: Signatures) -> bool {
    let base = src.base.carried_signatures;
    &&& signatures.show_mod_stamp@ == base.show_mod_stamp@
    &&& signatures.connect_func@ == base.connect_func@
    &&& signatures.fixed_update_func@ == base.fixed_update_func@
    &&& signatures.ping_message_string@ == base.ping_message_string@
    &&& signatures.mod_late_update@ == base.mod_late_update@
}

/// `offsets` is what the sources say.
pub open spec fn offsets_from(src: Sources, offsets: Offsets) -> bool {
    let pointer = src.image.arch.pointer();
    let door = value(src, "PlainDoor"@, "Open"@);
    let base = src.base;
    &&& offsets.meeting_hud@ == chain(src)
    &&& offsets.object_cache_ptr@ == just((2 * pointer) as i64)
    &&& offsets.meeting_hud_state@ == just(value(src, "MeetingHud"@, "state"@))
    &&& offsets.all_players_ptr@ == chain(src).push(value(src, "GameData"@, "AllPlayers"@))
    &&& offsets.all_players@ == just((2 * pointer) as i64)
    &&& offsets.player_count@ == just((3 * pointer) as i64)
    &&& offsets.player_addr_ptr == 4 * pointer
    &&& offsets.ship_status@ == chain(src)
    &&& offsets.ship_status_systems@ == just(value(src, "ShipStatus"@, "Systems"@))
    &&& offsets.ship_status_map@ == just(value(src, "ShipStatus"@, "Type"@))
    &&& offsets.shipstatus_all_doors@ == just(value(src, "ShipStatus"@, "AllDoors"@))
    &&& offsets.door_door_id == value(src, "OpenableDoor"@, "Id"@)
    &&& offsets.door_is_open == door
    &&& offsets.decon_door_upper_open@ == just(value(src, "DeconSystem"@, "UpperDoor"@)).push(door)
    &&& offsets.decon_door_lower_open@ == just(value(src, "DeconSystem"@, "LowerDoor"@)).push(door)
    &&& offsets.hq_hud_completed_consoles@ == just(
        value(src, "HqHudSystemType"@, "CompletedConsoles"@),
    ).push((4 * pointer) as i64)
    &&& offsets.hud_override_is_active@ == just(
        value(src, "HudOverrideSystemType"@, "<IsActive>k__BackingField"@),
    )
    &&& offsets.mini_game@ == chain(src)
    &&& offsets.planet_surveillance_current_camera@ == just(
        value(src, "PlanetSurveillanceMinigame"@, "currentCamera"@),
    )
    &&& offsets.planet_surveillance_camaras_count@ == just(
        value(src, "PlanetSurveillanceMinigame"@, "survCameras"@),
    ).push((3 * pointer) as i64)
    &&& offsets.surveillance_filtered_rooms_count@ == just(
        value(src, "SurveillanceMinigame"@, "FilteredRooms"@),
    ).push((3 * pointer) as i64)
    &&& offsets.light_radius@ == just(
        offset_of(src, "PlayerControl"@, two("lightSource"@, "myLight"@)),
    ).push(offset_of(src, "LightSource"@, two("viewDistance"@, "LightRadius"@)))
    &&& offsets.palette@ == block(src)
    &&& offsets.palette_playercolor@ == just(
        static_offset_of(src, "Palette"@, one("PlayerColors"@)),
    )
    &&& offsets.palette_shadow_color@ == just(
        static_offset_of(src, "Palette"@, one("ShadowColors"@)),
    )
    &&& offsets.player_control_game_options@ == block(src)
        + base.player_control_game_options_tail@
    &&& offsets.gameoptions_data@ == chain(src).push(
        value(src, "GameOptionsManager"@, "currentGameOptions"@),
    )
    &&& offsets.game_options_map_id@ == just(
        value(src, "NormalGameOptionsV11"@, "<MapId>k__BackingField"@),
    )
    &&& offsets.game_options_max_players@ == just(
        value(src, "NormalGameOptionsV11"@, "<MaxPlayers>k__BackingField"@),
    )
    &&& offsets.server_manager_current_server@ == block(src) + base.server_manager_tail@
    &&& offsets.connect_func == base.function_placeholders.connect_func
    &&& offsets.show_mod_stamp_func == base.function_placeholders.show_mod_stamp_func
    &&& offsets.mod_late_update_func == base.function_placeholders.mod_late_update_func
    &&& offsets.fixed_update_func == base.function_placeholders.fixed_update_func
    &&& offsets.ping_message_string == base.function_placeholders.ping_message_string
    &&& client_from(src, offsets.inner_net_client)
    &&& player_from(src, offsets.player)
    &&& generated_from(src, offsets.signatures)
    &&& carried_from(src, offsets.signatures)
    &&& offsets.old_meeting_hud == base.flags.old_meeting_hud
    &&& offsets.disable_writing == base.flags.disable_writing
    &&& offsets.new_game_options == base.flags.new_game_options
}

/// What the entries of a player record say.
pub open spec fn record_views(fields: Seq<(i64, &str, &str)>) -> Seq<RecordField> {
    fields.map_values(|f: (i64, &str, &str)| (f.0, f.1@, f.2@))
}

fn place<'a>(row: &mut Vec<(i64, &'a str, &'a str)>, one: (i64, &'a str, &'a str))
    ensures
        record_views(final(row)@) == placed(record_views(old(row)@), (one.0, one.1@, one.2@)),
{
    let ghost before = record_views(row@);
    let ghost new = (one.0, one.1@, one.2@);
    let mut at: usize = row.len();
    assert(before.take(at as int) =~= before);
    assert(before.skip(at as int) =~= Seq::empty());
    assert(placed(before.take(at as int), new) + before.skip(at as int) =~= placed(before, new));
    while at > 0 && one.0 < row[at - 1].0
        invariant
            at <= row@.len(),
            record_views(row@) == before,
            new == (one.0, one.1@, one.2@),
            placed(before.take(at as int), new) + before.skip(at as int) == placed(before, new),
        decreases at,
    {
        assert(before[at - 1].0 == row@[at - 1].0);
        assert(before.take(at as int).drop_last() =~= before.take(at - 1));
        assert(placed(before.take(at - 1), new).push(before[at - 1]) + before.skip(at as int)
            =~= placed(before.take(at - 1), new) + before.skip(at - 1));
        at -= 1;
    }
    proof {
        if at > 0 {
            assert(before[at - 1].0 == row@[at - 1].0);
            assert(before.take(at as int).last() == before[at - 1]);
        }
    }
    assert(placed(before.take(at as int), new) == before.take(at as int).push(new));
    row.insert(at, one);
    assert(record_views(row@) =~= before.take(at as int).push(new) + before.skip(at as int));
}

/// Members for the fields of a record: sorted by offset, with the gaps between
/// them and the rest up to `end` padded, so the layout follows the dump rather
/// than a hand-maintained list.
pub fn struct_members(fields: &Vec<(i64, &str, &str)>, end: i64) -> (r: Vec<StructMember>)
    ensures
        layout_views(r@) == struct_of(record_views(fields@), end),
{
    let ghost all = record_views(fields@);
    let mut sorted: Vec<(i64, &str, &str)> = Vec::new();
    assert(record_views(sorted@) =~= Seq::empty());
    for i in 0..fields.len()
        invariant
            all == record_views(fields@),
            record_views(sorted@) == by_offset(all.take(i as int)),
    {
        assert(all.take(i + 1).drop_last() =~= all.take(i as int));
        assert(all.take(i + 1).last() == all[i as int]);
        place(&mut sorted, fields[i]);
    }
    assert(all.take(all.len() as int) =~= all);
    let ghost ordered = record_views(sorted@);
    let mut members: Vec<StructMember> = Vec::new();
    let mut cursor: i128 = 0;
    assert(layout_views(members@) =~= Seq::empty());
    for i in 0..sorted.len()
        invariant
            ordered == record_views(sorted@),
            laid(ordered.take(i as int)) == (layout_views(members@), cursor as int),
            0 <= cursor <= i64::MAX + 4 * i,
    {
        assert(ordered.take(i + 1).drop_last() =~= ordered.take(i as int));
        assert(ordered.take(i + 1).last() == ordered[i as int]);
        let (offset, name, kind): (i64, &str, &str) = sorted[i];
        if offset as i128 > cursor {
            let ghost before = layout_views(members@);
            let pad = StructMember::padding((offset as i128 - cursor) as i64);
            members.push(pad);
            assert(layout_views(members@) =~= before.push(pad@));
            cursor = offset as i128;
        }
        let member = StructMember::value(kind, name);
        cursor = cursor + member.size() as i128;
        let ghost before = layout_views(members@);
        members.push(member);
        assert(layout_views(members@) =~= before.push(member@));
    }
    assert(ordered.take(ordered.len() as int) =~= ordered);
    if cursor < end as i128 {
        let ghost before = layout_views(members@);
        let pad = StructMember::padding((end as i128 - cursor) as i64);
        members.push(pad);
        assert(layout_views(members@) =~= before.push(pad@));
    }
    members
}

/// Names in quotes, as in `["a", "b"]`.
fn list(names: &[&str]) -> (r: String)
    ensures
        r@ == listed(str_views(names@)),
{
    let ghost all = str_views(names@);
    let mut out = "".to_owned();
    for i in 0..names.len()
        invariant
            all == str_views(names@),
            out@ == listed_items(all.take(i as int)),
    {
        assert(all.take(i + 1).drop_last() =~= all.take(i as int));
        assert(all.take(i + 1).last() == names@[i as int]@);
        if i == 0 {
            out.append("\"");
        } else {
            out.append(", \"");
        }
        out.append(names[i]);
        out.append("\"");
    }
    assert(all.take(all.len() as int) =~= all);
    let mut text = "[".to_owned();
    text.append(out.as_str());
    text.append("]");
    text
}

fn is_near(name: &str, candidates: &[&str]) -> (r: bool)
    ensures
        r == near(name@, str_views(candidates@)),
{
    let small = chars_of(lowered(name).as_str());
    let mut i: usize = 0;
    while i < candidates.len()
        invariant
            i <= candidates@.len(),
            small@ == lower(name@),
            forall|j: int|
                0 <= j < i ==> !resembles(name@, #[trigger] str_views(candidates@)[j]),
        decreases candidates@.len() - i,
    {
        let wanted: String = lowered(candidates[i]);
        let wanted_chars = chars_of(wanted.as_str());
        let name_text: String = lowered(name);
        assert(str_views(candidates@)[i as int] == candidates@[i as int]@);
        if has_part(small.as_slice(), wanted.as_str()) || has_part(
            wanted_chars.as_slice(),
            name_text.as_str(),
        ) {
            assert(resembles(name@, str_views(candidates@)[i as int]));
            return true;
        }
        i += 1;
    }
    false
}

pub struct Generator<'a> {
    dump: &'a Dump,
    types: &'a TypeInfoTable,
    image: &'a Image,
    base: &'a BaseConstants,
    static_fields: i64,
    problems: Vec<String>,
    provenance: Vec<(String, Provenance)>,
    signature_details: Vec<(String, String)>,
    notes: Vec<String>,
    steps: Ghost<Seq<Step>>,
}

impl<'a> Generator<'a> {
    pub closed spec fn sources(&self) -> Sources {
        Sources {
            dump: self.dump@,
            types: self.types@,
            image: self.image@,
            base: *self.base,
            static_fields: self.static_fields,
        }
    }

    /// What has been done.
    pub closed spec fn done(&self) -> Seq<Step> {
        self.steps@
    }

    /// What is recorded is what the steps that have been done say.
    pub closed spec fn recorded(&self) -> bool {
        &&& views(self.problems@) == problems_of(self.sources(), self.steps@)
        &&& provenance_views(self.provenance@) == provenance_of(self.sources(), self.steps@)
        &&& detail_views(self.signature_details@) == details_of(self.sources(), self.steps@)
        &&& views(self.notes@) == notes_of(self.sources(), self.steps@)
    }

    pub fn new(
        dump: &'a Dump,
        types: &'a TypeInfoTable,
        image: &'a Image,
        base: &'a BaseConstants,
        static_fields: i64,
    ) -> (r: Self)
        ensures
            r.sources() == (Sources {
                dump: dump@,
                types: types@,
                image: image@,
                base: *base,
                static_fields,
            }),
            r.done() == Seq::<Step>::empty(),
            r.recorded(),
    {
        let r = Self {
            dump,
            types,
            image,
            base,
            static_fields,
            problems: Vec::new(),
            provenance: Vec::new(),
            signature_details: Vec::new(),
            notes: Vec::new(),
            steps: Ghost(Seq::empty()),
        };
        assert(views(r.problems@) =~= Seq::empty());
        assert(provenance_views(r.provenance@) =~= Seq::empty());
        assert(detail_views(r.signature_details@) =~= Seq::empty());
        assert(views(r.notes@) =~= Seq::empty());
        r
    }

    fn pointer(&self) -> (r: i64)
        ensures
            r == self.sources().image.arch.pointer(),
            r == 4 || r == 8,
    {
        self.image.arch().pointer_size() as i64
    }

    /// Il2CppObject header, and therefore the offset of the first managed field
    /// and of `UnityEngine.Object.m_CachedPtr`.
    fn object_header(&self) -> (r: i64)
        ensures
            r == 2 * self.sources().image.arch.pointer(),
    {
        2 * self.pointer()
    }

    fn list_items(&self) -> (r: i64)
        ensures
            r == 2 * self.sources().image.arch.pointer(),
    {
        self.object_header()
    }

    fn list_count(&self) -> (r: i64)
        ensures
            r == 3 * self.sources().image.arch.pointer(),
    {
        3 * self.pointer()
    }

    /// `Il2CppArray::max_length`, which is what the client reads for a count.
    fn array_length(&self) -> (r: i64)
        ensures
            r == 3 * self.sources().image.arch.pointer(),
    {
        3 * self.pointer()
    }

    /// First element of an `Il2CppArray`.
    fn array_data(&self) -> (r: i64)
        ensures
            r == 4 * self.sources().image.arch.pointer(),
    {
        4 * self.pointer()
    }

    /// `HashSet<T>::_count`. Generic definitions carry no offsets in a dump, so
    /// this follows the field order: `_buckets`, `_slots`, then `_count`.
    fn hashset_count(&self) -> (r: i64)
        ensures
            r == 4 * self.sources().image.arch.pointer(),
    {
        4 * self.pointer()
    }

    fn describe_missing(&self, label: &str, class: &str, candidates: &[&str]) -> (r: String)
        ensures
            r@ == missing(self.sources().dump, label@, class@, str_views(candidates@)),
    {
        let class_info = match self.dump.class(class) {
            Some(found) => found,
            None => {
                let mut message = label.to_owned();
                message.append(": class '");
                message.append(class);
                message.append(
                    "' is not in this dump at all -- it was renamed, removed, or the dump is incomplete",
                );
                return message;
            },
        };
        let names = class_info.field_names();
        let ghost all = class_info@.fields.map_values(|f: (Seq<char>, FieldView)| f.0);
        let ghost cands = str_views(candidates@);
        let ghost wanted = |name: Seq<char>| near(name, cands);
        let mut similar: Vec<&str> = Vec::new();
        let mut i: usize = 0;
        proof {
            reveal(Seq::filter);
        }
        assert(str_views(similar@) =~= all.take(0).filter(wanted));
        while i < names.len() && similar.len() < 5
            invariant
                i <= names@.len(),
                all == str_views(names@),
                cands == str_views(candidates@),
                wanted == (|name: Seq<char>| near(name, cands)),
                similar@.len() <= 5,
                str_views(similar@) == all.take(i as int).filter(wanted),
            decreases names@.len() - i,
        {
            proof {
                reveal(Seq::filter);
            }
            assert(all.take(i + 1).drop_last() =~= all.take(i as int));
            assert(all.take(i + 1).last() == names@[i as int]@);
            if is_near(names[i], candidates) {
                let ghost before = str_views(similar@);
                similar.push(names[i]);
                assert(str_views(similar@) =~= before.push(names@[i as int]@));
            }
            i += 1;
        }
        proof {
            lemma_filter_prefix(all, wanted, i as int);
            assert(all.take(all.len() as int) =~= all);
            let whole = all.filter(wanted);
            assert(str_views(similar@).is_prefix_of(whole));
            assert(str_views(similar@) =~= near_misses(class_info@, cands));
        }
        let mut message = label.to_owned();
        message.append(": ");
        message.append(class);
        message.append(" has none of ");
        message.append(list(candidates).as_str());
        let hint: String = if similar.len() == 0 {
            "".to_owned()
        } else {
            let mut text = " (similar fields present: ".to_owned();
            text.append(join(&similar, ", ").as_str());
            text.append(")");
            text
        };
        message.append(hint.as_str());
        message
    }

    fn record_problem(&mut self, message: String)
        ensures
            final(self).sources() == old(self).sources(),
            views(final(self).problems@) == views(old(self).problems@).push(message@),
            final(self).provenance == old(self).provenance,
            final(self).signature_details == old(self).signature_details,
            final(self).notes == old(self).notes,
            final(self).steps == old(self).steps,
    {
        let ghost before = views(self.problems@);
        self.problems.push(message);
        assert(views(self.problems@) =~= before.push(message@));
    }

    fn record_provenance(&mut self, label: &str, provenance: Provenance)
        ensures
            final(self).sources() == old(self).sources(),
            provenance_views(final(self).provenance@) == provenance_views(
                old(self).provenance@,
            ).push((label@, provenance@)),
            final(self).problems == old(self).problems,
            final(self).signature_details == old(self).signature_details,
            final(self).notes == old(self).notes,
            final(self).steps == old(self).steps,
    {
        let ghost before = provenance_views(self.provenance@);
        self.provenance.push((label.to_owned(), provenance));
        assert(provenance_views(self.provenance@) =~= before.push((label@, provenance@)));
    }

    fn record_note(&mut self, note: String)
        ensures
            final(self).sources() == old(self).sources(),
            views(final(self).notes@) == views(old(self).notes@).push(note@),
            final(self).problems == old(self).problems,
            final(self).provenance == old(self).provenance,
            final(self).signature_details == old(self).signature_details,
            final(self).steps == old(self).steps,
    {
        let ghost before = views(self.notes@);
        self.notes.push(note);
        assert(views(self.notes@) =~= before.push(note@));
    }

    fn field(&mut self, label: &str, class: &str, candidates: &[&str]) -> (r: i64)
        requires
            old(self).recorded(),
        ensures
            final(self).recorded(),
            final(self).sources() == old(self).sources(),
            final(self).done() == old(self).done().push(
                Step::Field { label: label@, class: class@, candidates: str_views(candidates@) },
            ),
            r == offset_of(old(self).sources(), class@, str_views(candidates@)),
    {
        let ghost step = Step::Field {
            label: label@,
            class: class@,
            candidates: str_views(candidates@),
        };
        let ghost before = self.steps@;
        assert(before.push(step).drop_last() =~= before);
        let offset: i64 = match self.dump.find_field(class, candidates) {
            Some((offset, which)) => {
                if candidates.len() > 1 {
                    assert(str_views(candidates@)[0] == candidates@[0]@);
                    let which_chars: Vec<char> = chars_of(which.as_str());
                    if without_suffix(which_chars.as_slice(), candidates[0]).is_none() {
                        let mut note = label.to_owned();
                        note.append(": ");
                        note.append(class);
                        note.append(".");
                        note.append(candidates[0]);
                        note.append(" is gone in this build; used ");
                        note.append(which.as_str());
                        note.append(" instead");
                        self.record_note(note);
                    }
                }
                self.record_provenance(label, Provenance::Derived(which));
                offset
            },
            None => {
                let message = self.describe_missing(label, class, candidates);
                self.record_problem(message);
                0
            },
        };
        self.steps = Ghost(before.push(step));
        offset
    }

    /// Reads one field.
    fn read(&mut self, label: &str, class: &str, name: &str) -> (r: i64)
        requires
            old(self).recorded(),
        ensures
            final(self).recorded(),
            final(self).sources() == old(self).sources(),
            final(self).done() == old(self).done().push(field(label@, class@, name@)),
            r == value(old(self).sources(), class@, name@),
    {
        let names: [&str; 1] = [name];
        assert(str_views(names@) =~= one(name@));
        self.field(label, class, names.as_slice())
    }

    /// Reads a field that goes by one of two names.
    fn read_either(&mut self, label: &str, class: &str, name: &str, other: &str) -> (r: i64)
        requires
            old(self).recorded(),
        ensures
            final(self).recorded(),
            final(self).sources() == old(self).sources(),
            final(self).done() == old(self).done().push(either(label@, class@, name@, other@)),
            r == offset_of(old(self).sources(), class@, two(name@, other@)),
    {
        let names: [&str; 2] = [name, other];
        assert(str_views(names@) =~= two(name@, other@));
        self.field(label, class, names.as_slice())
    }

    fn static_field(&mut self, label: &str, class: &str, name: &str) -> (r: i64)
        requires
            old(self).recorded(),
        ensures
            final(self).recorded(),
            final(self).sources() == old(self).sources(),
            final(self).done() == old(self).done().push(static_field(label@, class@, name@)),
            r == static_offset_of(old(self).sources(), class@, one(name@)),
    {
        let names: [&str; 1] = [name];
        let candidates: &[&str] = names.as_slice();
        assert(str_views(candidates@) =~= one(name@));
        let ghost step = static_field(label@, class@, name@);
        let ghost before = self.steps@;
        assert(before.push(step).drop_last() =~= before);
        let offset: i64 = match self.dump.find_static_field(class, candidates) {
            Some((offset, which)) => {
                self.record_provenance(label, Provenance::Derived(which));
                offset
            },
            None => {
                let message = self.describe_missing(label, class, candidates);
                self.record_problem(message);
                0
            },
        };
        self.steps = Ghost(before.push(step));
        offset
    }

    fn layout(&mut self, label: &str, description: &str, value: i64) -> (r: i64)
        requires
            old(self).recorded(),
        ensures
            final(self).recorded(),
            final(self).sources() == old(self).sources(),
            final(self).done() == old(self).done().push(layout(label@, description@)),
            r == value,
    {
        let ghost step = layout(label@, description@);
        let ghost before = self.steps@;
        assert(before.push(step).drop_last() =~= before);
        self.record_provenance(label, Provenance::Layout(description.to_owned()));
        self.steps = Ghost(before.push(step));
        value
    }

    fn carried(&mut self, label: &str, why: &str)
        requires
            old(self).recorded(),
        ensures
            final(self).recorded(),
            final(self).sources() == old(self).sources(),
            final(self).done() == old(self).done().push(carried(label@, why@)),
    {
        let ghost step = carried(label@, why@);
        let ghost before = self.steps@;
        assert(before.push(step).drop_last() =~= before);
        self.record_provenance(label, Provenance::Carried(why.to_owned()));
        self.steps = Ghost(before.push(step));
    }

    /// The signature for a type; nothing where none can be generated.
    fn signature(&mut self, label: &str, of: &str) -> (r: Signature)
        requires
            old(self).recorded(),
        ensures
            final(self).recorded(),
            final(self).sources() == old(self).sources(),
            final(self).done() == old(self).done().push(signature(label@, of@)),
            r@ == published(old(self).sources(), of@),
            vouched(old(self).sources(), of@),
    {
        let ghost step = signature(label@, of@);
        let ghost before = self.steps@;
        assert(before.push(step).drop_last() =~= before);
        let slot: u64 = match self.types.slot(of) {
            Some(slot) => slot,
            None => {
                let mut message = label.to_owned();
                message.append(": no ");
                message.append(of);
                message.append(
                    "_TypeInfo in script.json -- the class was renamed or removed, so its signature cannot be generated",
                );
                self.record_problem(message);
                self.steps = Ghost(before.push(step));
                return Signature::default();
            },
        };
        let result: Signature = match SignatureGenerator::new(self.image).generate(slot) {
            Ok(generated) => {
                let ghost details = detail_views(self.signature_details@);
                let description: String = generated.describe();
                self.signature_details.push((of.to_owned(), description));
                assert(detail_views(self.signature_details@) =~= details.push(
                    (of@, description@),
                ));
                self.record_provenance(label, Provenance::SignatureFor(of.to_owned()));
                Signature {
                    sig: Some(generated.pattern.to_string()),
                    pattern_offset: Some(generated.pattern_offset),
                    address_offset: Some(generated.address_offset),
                }
            },
            Err(error) => {
                let mut message = label.to_owned();
                message.append(": signature for ");
                message.append(of);
                message.append(" failed: ");
                message.append(error.to_string().as_str());
                self.record_problem(message);
                Signature::default()
            },
        };
        self.steps = Ghost(before.push(step));
        result
    }
}

/// The parts of the file that start at a static class.
struct Chains {
    all_players_ptr: Vec<i64>,
    gameoptions_data: Vec<i64>,
    server_manager: Vec<i64>,
    player_control_game_options: Vec<i64>,
    signatures: Signatures,
}

/// What doors and a player's position are read from.
struct Position {
    door_is_open: i64,
    decon_upper: i64,
    decon_lower: i64,
    cosmetics: i64,
    net_transform: i64,
    body: i64,
    cached_ptr: i64,
}

impl<'a> Generator<'a> {
    fn static_chain(&self) -> (r: Vec<i64>)
        ensures
            r@ == chain(self.sources()),
    {
        let mut all: Vec<i64> = Vec::new();
        all.push(SIGNATURE_RESOLVED);
        all.push(self.static_fields);
        all.push(0);
        all
    }

    fn static_block(&self) -> (r: Vec<i64>)
        ensures
            r@ == block(self.sources()),
    {
        let mut all: Vec<i64> = Vec::new();
        all.push(SIGNATURE_RESOLVED);
        all.push(self.static_fields);
        all
    }

    #[verifier::rlimit(40)]
    fn chains(&mut self) -> (r: Chains)
        requires
            old(self).recorded(),
        ensures
            final(self).recorded(),
            final(self).sources() == old(self).sources(),
            final(self).done() == after_chains(old(self).done()),
            generated_from(old(self).sources(), r.signatures),
            all_vouched(old(self).sources()),
            r.all_players_ptr@ == chain(old(self).sources()).push(
                value(old(self).sources(), "GameData"@, "AllPlayers"@),
            ),
            r.gameoptions_data@ == chain(old(self).sources()).push(
                value(old(self).sources(), "GameOptionsManager"@, "currentGameOptions"@),
            ),
            r.server_manager@ == block(old(self).sources())
                + old(self).sources().base.server_manager_tail@,
            r.player_control_game_options@ == block(old(self).sources())
                + old(self).sources().base.player_control_game_options_tail@,
    {
        let mut signatures = Signatures::default();
        signatures.meeting_hud = self.signature("meetingHud", "MeetingHud");
        signatures.ship_status = self.signature("shipStatus", "ShipStatus");
        signatures.mini_game = self.signature("miniGame", "Minigame");
        signatures.palette = self.signature("palette", "Palette");
        signatures.game_data = self.signature("allPlayersPtr", "GameData");
        let mut all_players_ptr: Vec<i64> = self.static_chain();
        all_players_ptr.push(self.read("allPlayersPtr[3]", "GameData", "AllPlayers"));
        signatures.game_options_manager = self.signature("gameoptionsData", "GameOptionsManager");
        let mut gameoptions_data: Vec<i64> = self.static_chain();
        gameoptions_data.push(
            self.read("gameoptionsData[3]", "GameOptionsManager", "currentGameOptions"),
        );
        signatures.server_manager = self.signature("serverManager_currentServer", "ServerManager");
        self.carried(
            "serverManager_currentServer tail",
            "singleton walk to the current region name; never re-derived from a dump",
        );
        let mut server_manager: Vec<i64> = self.static_block();
        extend(&mut server_manager, &self.base.server_manager_tail);
        self.carried(
            "playerControl_GameOptions",
            "vestigial; the client stopped reading it when newGameOptions arrived",
        );
        let mut player_control_game_options: Vec<i64> = self.static_block();
        extend(&mut player_control_game_options, &self.base.player_control_game_options_tail);
        signatures.inner_net_client = self.signature("innerNetClient.base", "AmongUsClient");
        // playerControl's signature is not used for a chain of its own, but the
        // client scans for it and falls back to it when newGameOptions is off.
        signatures.player_control = self.signature("signatures.playerControl", "PlayerControl");
        Chains {
            all_players_ptr,
            gameoptions_data,
            server_manager,
            player_control_game_options,
            signatures,
        }
    }

    fn position(&mut self) -> (r: Position)
        requires
            old(self).recorded(),
        ensures
            final(self).recorded(),
            final(self).sources() == old(self).sources(),
            final(self).done() == after_position(old(self).done()),
            r.door_is_open == value(old(self).sources(), "PlainDoor"@, "Open"@),
            r.decon_upper == value(old(self).sources(), "DeconSystem"@, "UpperDoor"@),
            r.decon_lower == value(old(self).sources(), "DeconSystem"@, "LowerDoor"@),
            r.cosmetics == value(old(self).sources(), "PlayerControl"@, "cosmetics"@),
            r.net_transform == value(old(self).sources(), "PlayerControl"@, "NetTransform"@),
            r.body == value(old(self).sources(), "CustomNetworkTransform"@, "body"@),
            r.cached_ptr == 2 * old(self).sources().image.arch.pointer(),
    {
        let door_is_open: i64 = self.read("door_isOpen", "PlainDoor", "Open");
        let decon_upper: i64 = self.read("deconDoorUpperOpen[0]", "DeconSystem", "UpperDoor");
        let decon_lower: i64 = self.read("deconDoorLowerOpen[0]", "DeconSystem", "LowerDoor");
        let cosmetics: i64 = self.read("player.cosmetics", "PlayerControl", "cosmetics");
        let net_transform: i64 = self.read("player.NetTransform", "PlayerControl", "NetTransform");
        let body: i64 = self.read("player.body", "CustomNetworkTransform", "body");
        let object_header: i64 = self.object_header();
        let cached_ptr: i64 = self.layout(
            "player.localX[2]",
            "UnityEngine.Object.m_CachedPtr, first field after the object header",
            object_header,
        );
        self.carried(
            "player.localX[3]",
            "position.x inside the native Rigidbody2D; native layout, absent from any dump",
        );
        Position {
            door_is_open,
            decon_upper,
            decon_lower,
            cosmetics,
            net_transform,
            body,
            cached_ptr,
        }
    }

    fn read_record(&mut self, name: &str, of: &str) -> (r: i64)
        requires
            old(self).recorded(),
        ensures
            final(self).recorded(),
            final(self).sources() == old(self).sources(),
            final(self).done() == old(self).done().push(record_field(name@, of@)),
            r == record(old(self).sources(), of@),
    {
        let mut label = "player.struct.".to_owned();
        label.append(name);
        self.read(label.as_str(), "NetworkedPlayerInfo", of)
    }

    /// Members of the player record the client parses with `structron`.
    fn player_struct(&mut self) -> (r: Vec<StructMember>)
        requires
            old(self).recorded(),
            sums_fit(old(self).sources()),
        ensures
            final(self).recorded(),
            final(self).sources() == old(self).sources(),
            final(self).done() == after_record(old(self).done()),
            layout_views(r@) == struct_of(
                record_fields(old(self).sources()),
                buffer_length(old(self).sources()) as i64,
            ),
    {
        let ghost src = self.sources();
        let mut fields: Vec<(i64, &str, &str)> = Vec::new();
        fields.push((self.read_record("id", "PlayerId"), "id", "UINT"));
        fields.push((self.read_record("outfitsPtr", "Outfits"), "outfitsPtr", "UINT"));
        fields.push((self.read_record("playerLevel", "PlayerLevel"), "playerLevel", "UINT"));
        fields.push((self.read_record("disconnected", "Disconnected"), "disconnected", "UINT"));
        fields.push((self.read_record("rolePtr", "Role"), "rolePtr", "UINT"));
        fields.push((self.read_record("taskPtr", "Tasks"), "taskPtr", "UINT"));
        fields.push((self.read_record("dead", "IsDead"), "dead", "BYTE"));
        fields.push((self.read_record("objectPtr", "_object"), "objectPtr", "UINT"));
        assert(record_views(fields@) =~= record_fields(src));
        struct_members(&fields, self.record_end())
    }

    /// End of the last field read from the player record.
    fn record_end(&self) -> (r: i64)
        requires
            sums_fit(self.sources()),
        ensures
            r == buffer_length(self.sources()),
    {
        let names: [&str; 1] = ["_object"];
        assert(str_views(names@) =~= one("_object"@));
        match self.dump.find_field("NetworkedPlayerInfo", names.as_slice()) {
            Some((offset, _)) => offset + self.pointer(),
            None => self.object_header(),
        }
    }

    fn player_buffer_length(&mut self) -> (r: i64)
        requires
            old(self).recorded(),
            sums_fit(old(self).sources()),
        ensures
            final(self).recorded(),
            final(self).sources() == old(self).sources(),
            final(self).done() == old(self).done().push(
                layout(
                    "player.bufferLength"@,
                    "end of the last field read from NetworkedPlayerInfo"@,
                ),
            ),
            r == buffer_length(old(self).sources()),
    {
        let length: i64 = self.record_end();
        self.layout(
            "player.bufferLength",
            "end of the last field read from NetworkedPlayerInfo",
            length,
        )
    }

    fn outfit(&mut self) -> (r: Outfit)
        requires
            old(self).recorded(),
        ensures
            final(self).recorded(),
            final(self).sources() == old(self).sources(),
            final(self).done() == after_outfit(old(self).done()),
            outfit_from(old(self).sources(), r),
    {
        let class = "NetworkedPlayerInfo.PlayerOutfit";
        Outfit {
            color_id: single(self.read("player.outfit.colorId", class, "ColorId")),
            hat_id: single(self.read("player.outfit.hatId", class, "HatId")),
            skin_id: single(self.read("player.outfit.skinId", class, "SkinId")),
            visor_id: single(self.read("player.outfit.visorId", class, "VisorId")),
            player_name: single(
                self.read_either("player.outfit.playerName", class, "PlayerName", "_playerName"),
            ),
        }
    }

    #[verifier::rlimit(40)]
    fn player(&mut self, at: &Position) -> (r: Player)
        requires
            old(self).recorded(),
            sums_fit(old(self).sources()),
            at.cosmetics == value(old(self).sources(), "PlayerControl"@, "cosmetics"@),
            at.net_transform == value(old(self).sources(), "PlayerControl"@, "NetTransform"@),
            at.body == value(old(self).sources(), "CustomNetworkTransform"@, "body"@),
            at.cached_ptr == 2 * old(self).sources().image.arch.pointer(),
        ensures
            final(self).recorded(),
            final(self).sources() == old(self).sources(),
            final(self).done() == after_outfit(after_player(after_record(old(self).done()))),
            player_from(old(self).sources(), r),
    {
        let x: i64 = self.base.native_rigidbody_position_x;
        let struct_layout: Vec<StructMember> = self.player_struct();
        let is_dummy: i64 = self.read("player.isDummy", "PlayerControl", "isDummy");
        let is_local: i64 = self.read("player.isLocal[1]", "CosmeticsLayer", "localPlayer");
        let buffer_length: i64 = self.player_buffer_length();
        let in_vent: i64 = self.read("player.inVent", "PlayerControl", "inVent");
        let client_id: i64 = self.read("player.clientId", "InnerNetObject", "OwnerId");
        let current_outfit: i64 = self.read(
            "player.currentOutfit",
            "PlayerControl",
            "<CurrentOutfitType>k__BackingField",
        );
        let role_team: i64 = self.read("player.roleTeam", "RoleBehaviour", "TeamType");
        let name_text: i64 = self.read("player.nameText[1]", "CosmeticsLayer", "nameText");
        let text: i64 = self.read("player.nameText[2]", "TMP_Text", "m_text");
        let outfit: Outfit = self.outfit();
        let mut names: Vec<i64> = pair(at.cosmetics, name_text);
        names.push(text);
        Player {
            struct_layout,
            is_dummy: single(is_dummy),
            is_local: pair(at.cosmetics, is_local),
            local_x: position_chain(at, x),
            local_y: position_chain(at, x + 4),
            remote_x: position_chain(at, x),
            remote_y: position_chain(at, x + 4),
            buffer_length,
            offsets: pair(0, 0),
            in_vent: single(in_vent),
            client_id: single(client_id),
            current_outfit: single(current_outfit),
            role_team: single(role_team),
            name_text: names,
            outfit,
        }
    }

    fn inner_net_client(&mut self) -> (r: InnerNetClient)
        requires
            old(self).recorded(),
        ensures
            final(self).recorded(),
            final(self).sources() == old(self).sources(),
            final(self).done() == after_client(old(self).done()),
            client_from(old(self).sources(), r),
    {
        let class = "InnerNetClient";
        let base: Vec<i64> = self.static_chain();
        InnerNetClient {
            base,
            network_address: self.read("innerNetClient.networkAddress", class, "networkAddress"),
            network_port: self.read("innerNetClient.networkPort", class, "networkPort"),
            game_mode: self.read_either(
                "innerNetClient.gameMode",
                class,
                "GameMode",
                "NetworkMode",
            ),
            game_id: self.read("innerNetClient.gameId", class, "GameId"),
            host_id: self.read("innerNetClient.hostId", class, "HostId"),
            client_id: self.read("innerNetClient.clientId", class, "ClientId"),
            game_state: self.read("innerNetClient.gameState", class, "GameState"),
            online_scene: self.read("innerNetClient.onlineScene", "AmongUsClient", "OnlineScene"),
            main_menu_scene: self.read(
                "innerNetClient.mainMenuScene",
                "AmongUsClient",
                "MainMenuScene",
            ),
        }
    }

    /// Puts the carried signatures beside the generated ones.
    fn carry_write_path(&mut self, generated: Signatures) -> (r: Signatures)
        requires
            old(self).recorded(),
            generated_from(old(self).sources(), generated),
        ensures
            final(self).recorded(),
            final(self).sources() == old(self).sources(),
            final(self).done() == after_write_path(old(self).sources(), old(self).done()),
            generated_from(old(self).sources(), r),
            carried_from(old(self).sources(), r),
    {
        let mut signatures: Signatures = generated;
        let carried = &self.base.carried_signatures;
        signatures.show_mod_stamp = carried.show_mod_stamp.copy();
        signatures.connect_func = carried.connect_func.copy();
        signatures.fixed_update_func = carried.fixed_update_func.copy();
        signatures.ping_message_string = carried.ping_message_string.copy();
        signatures.mod_late_update = carried.mod_late_update.copy();
        if signatures.show_mod_stamp.is_present() {
            self.carried(
                "signatures (write path)",
                "function-body signatures for the mod stamp and connect hook; only used when disableWriting is false",
            );
        }
        signatures
    }

    #[verifier::rlimit(40)]
    fn assemble(
        &mut self,
        chains: Chains,
        at: Position,
        player: Player,
        inner_net_client: InnerNetClient,
        signatures: Signatures,
    ) -> (r: Offsets)
        requires
            old(self).recorded(),
            player_from(old(self).sources(), player),
            client_from(old(self).sources(), inner_net_client),
            generated_from(old(self).sources(), signatures),
            carried_from(old(self).sources(), signatures),
            at.door_is_open == value(old(self).sources(), "PlainDoor"@, "Open"@),
            at.decon_upper == value(old(self).sources(), "DeconSystem"@, "UpperDoor"@),
            at.decon_lower == value(old(self).sources(), "DeconSystem"@, "LowerDoor"@),
            chains.all_players_ptr@ == chain(old(self).sources()).push(
                value(old(self).sources(), "GameData"@, "AllPlayers"@),
            ),
            chains.gameoptions_data@ == chain(old(self).sources()).push(
                value(old(self).sources(), "GameOptionsManager"@, "currentGameOptions"@),
            ),
            chains.server_manager@ == block(old(self).sources())
                + old(self).sources().base.server_manager_tail@,
            chains.player_control_game_options@ == block(old(self).sources())
                + old(self).sources().base.player_control_game_options_tail@,
        ensures
            final(self).recorded(),
            final(self).sources() == old(self).sources(),
            final(self).done() == after_rest(old(self).done()),
            offsets_from(old(self).sources(), r),
    {
        let object_header: i64 = self.object_header();
        let list_items: i64 = self.list_items();
        let list_count: i64 = self.list_count();
        let array_length: i64 = self.array_length();
        let array_data: i64 = self.array_data();
        let hashset_count: i64 = self.hashset_count();
        let base = self.base;
        let meeting_hud: Vec<i64> = self.static_chain();
        let ship_status: Vec<i64> = self.static_chain();
        let mini_game: Vec<i64> = self.static_chain();
        let palette: Vec<i64> = self.static_block();
        Offsets {
            meeting_hud,
            object_cache_ptr: single(
                self.layout("objectCachePtr", "Il2CppObject header", object_header),
            ),
            meeting_hud_state: single(self.read("meetingHudState", "MeetingHud", "state")),
            all_players_ptr: chains.all_players_ptr,
            all_players: single(self.layout("allPlayers", "List<T>::_items", list_items)),
            player_count: single(self.layout("playerCount", "List<T>::_size", list_count)),
            player_addr_ptr: self.layout("playerAddrPtr", "Il2CppArray first element", array_data),
            ship_status,
            ship_status_systems: single(
                self.read("shipStatus_systems", "ShipStatus", "Systems"),
            ),
            ship_status_map: single(self.read("shipStatus_map", "ShipStatus", "Type")),
            shipstatus_all_doors: single(
                self.read("shipstatus_allDoors", "ShipStatus", "AllDoors"),
            ),
            door_door_id: self.read("door_doorId", "OpenableDoor", "Id"),
            door_is_open: at.door_is_open,
            decon_door_upper_open: pair(at.decon_upper, at.door_is_open),
            decon_door_lower_open: pair(at.decon_lower, at.door_is_open),
            hq_hud_completed_consoles: {
                let consoles: i64 = self.read(
                    "hqHudSystemType_CompletedConsoles",
                    "HqHudSystemType",
                    "CompletedConsoles",
                );
                let count: i64 = self.layout(
                    "hqHudSystemType_CompletedConsoles[1]",
                    "HashSet<T>::_count",
                    hashset_count,
                );
                pair(consoles, count)
            },
            hud_override_is_active: single(
                self.read(
                    "HudOverrideSystemType_isActive",
                    "HudOverrideSystemType",
                    "<IsActive>k__BackingField",
                ),
            ),
            mini_game,
            planet_surveillance_current_camera: single(
                self.read(
                    "planetSurveillanceMinigame_currentCamera",
                    "PlanetSurveillanceMinigame",
                    "currentCamera",
                ),
            ),
            planet_surveillance_camaras_count: {
                let cameras: i64 = self.read(
                    "planetSurveillanceMinigame_camarasCount",
                    "PlanetSurveillanceMinigame",
                    "survCameras",
                );
                let count: i64 = self.layout(
                    "planetSurveillanceMinigame_camarasCount[1]",
                    "Il2CppArray::max_length",
                    array_length,
                );
                pair(cameras, count)
            },
            surveillance_filtered_rooms_count: {
                let rooms: i64 = self.read(
                    "surveillanceMinigame_FilteredRoomsCount",
                    "SurveillanceMinigame",
                    "FilteredRooms",
                );
                let count: i64 = self.layout(
                    "surveillanceMinigame_FilteredRoomsCount[1]",
                    "Il2CppArray::max_length",
                    array_length,
                );
                pair(rooms, count)
            },
            light_radius: {
                let light: i64 = self.read_either(
                    "lightRadius[0]",
                    "PlayerControl",
                    "lightSource",
                    "myLight",
                );
                let radius: i64 = self.read_either(
                    "lightRadius[1]",
                    "LightSource",
                    "viewDistance",
                    "LightRadius",
                );
                pair(light, radius)
            },
            palette,
            palette_playercolor: single(
                self.static_field("palette_playercolor", "Palette", "PlayerColors"),
            ),
            palette_shadow_color: single(
                self.static_field("palette_shadowColor", "Palette", "ShadowColors"),
            ),
            player_control_game_options: chains.player_control_game_options,
            gameoptions_data: chains.gameoptions_data,
            game_options_map_id: single(
                self.read("gameOptions_MapId", "NormalGameOptionsV11", "<MapId>k__BackingField"),
            ),
            game_options_max_players: single(
                self.read(
                    "gameOptions_MaxPLayers",
                    "NormalGameOptionsV11",
                    "<MaxPlayers>k__BackingField",
                ),
            ),
            server_manager_current_server: chains.server_manager,
            connect_func: base.function_placeholders.connect_func,
            show_mod_stamp_func: base.function_placeholders.show_mod_stamp_func,
            mod_late_update_func: base.function_placeholders.mod_late_update_func,
            fixed_update_func: base.function_placeholders.fixed_update_func,
            ping_message_string: base.function_placeholders.ping_message_string,
            inner_net_client,
            player,
            signatures,
            old_meeting_hud: base.flags.old_meeting_hud,
            disable_writing: base.flags.disable_writing,
            new_game_options: base.flags.new_game_options,
        }
    }

    /// Whether the two sums that are published fit in 64 bits.
    pub fn fits(&self) -> (r: bool)
        ensures
            r == sums_fit(self.sources()),
    {
        let names: [&str; 1] = ["_object"];
        assert(str_views(names@) =~= one("_object"@));
        let end_fits = match self.dump.find_field("NetworkedPlayerInfo", names.as_slice()) {
            Some((offset, _)) => offset <= i64::MAX - self.pointer(),
            None => true,
        };
        self.base.native_rigidbody_position_x <= i64::MAX - 4 && end_fits
    }

    /// Looks everything up and assembles the file, or reports everything that
    /// could not be found.
    pub fn generate(self) -> (r: Result<GenerationOutcome>)
        requires
            self.recorded(),
            self.done() == Seq::<Step>::empty(),
            sums_fit(self.sources()),
        ensures
            ({
                let src = self.sources();
                let problems = problems_of(src, plan(src));
                match r {
                    Ok(outcome) => problems.len() == 0 && offsets_from(src, outcome.offsets)
                        && all_vouched(src)
                        && provenance_views(outcome.provenance@) == provenance_of(src, plan(src))
                        && detail_views(outcome.signature_details@) == details_of(src, plan(src))
                        && views(outcome.notes@) == notes_of(src, plan(src)),
                    Err(error) => problems.len() > 0 && error@ == ErrorView::Validation(problems),
                }
            }),
    {
        let mut generator = self;
        let chains: Chains = generator.chains();
        let at: Position = generator.position();
        let player: Player = generator.player(&at);
        let inner_net_client: InnerNetClient = generator.inner_net_client();
        let Chains {
            all_players_ptr,
            gameoptions_data,
            server_manager,
            player_control_game_options,
            signatures: generated,
        } = chains;
        let signatures: Signatures = generator.carry_write_path(generated);
        let rest = Chains {
            all_players_ptr,
            gameoptions_data,
            server_manager,
            player_control_game_options,
            signatures: Signatures::default(),
        };
        let offsets: Offsets = generator.assemble(rest, at, player, inner_net_client, signatures);
        if generator.problems.len() > 0 {
            return Err(Error::Validation(generator.problems));
        }
        Ok(
            GenerationOutcome {
                offsets,
                provenance: generator.provenance,
                signature_details: generator.signature_details,
                notes: generator.notes,
            },
        )
    }
}

fn single(n: i64) -> (r: Vec<i64>)
    ensures
        r@ == just(n),
{
    let mut all: Vec<i64> = Vec::new();
    all.push(n);
    all
}

fn pair(a: i64, b: i64) -> (r: Vec<i64>)
    ensures
        r@ == just(a).push(b),
{
    let mut all: Vec<i64> = single(a);
    all.push(b);
    all
}

fn extend(all: &mut Vec<i64>, tail: &Vec<i64>)
    ensures
        final(all)@ == old(all)@ + tail@,
{
    let ghost before = all@;
    for i in 0..tail.len()
        invariant
            all@ == before + tail@.take(i as int),
    {
        all.push(tail[i]);
        assert(all@ =~= before + tail@.take(i + 1));
    }
    assert(tail@.take(tail@.len() as int) =~= tail@);
}

fn position_chain(at: &Position, tail: i64) -> (r: Vec<i64>)
    ensures
        r@ == Seq::<i64>::empty().push(at.net_transform).push(at.body).push(at.cached_ptr).push(
            tail,
        ),
{
    let mut all: Vec<i64> = Vec::new();
    all.push(at.net_transform);
    all.push(at.body);
    all.push(at.cached_ptr);
    all.push(tail);
    all
}

proof fn lemma_filter_prefix(all: Seq<Seq<char>>, wanted: spec_fn(Seq<char>) -> bool, n: int)
    requires
        0 <= n <= all.len(),
    ensures
        all.take(n).filter(wanted).is_prefix_of(all.filter(wanted)),
    decreases all.len() - n,
{
    reveal(Seq::filter);
    if n < all.len() {
        lemma_filter_prefix(all, wanted, n + 1);
        assert(all.take(n + 1).drop_last() =~= all.take(n));
    } else {
        assert(all.take(n) =~= all);
    }
}

/// The label of a step.
pub open spec fn label_of(step: Step) -> Seq<char> {
    match step {
        Step::Field { label, class: _, candidates: _ } => label,
        Step::StaticField { label, class: _, candidates: _ } => label,
        Step::Layout { label, description: _ } => label,
        Step::Carried { label, why: _ } => label,
        Step::Signature { label, of: _ } => label,
    }
}

/// Where nothing went wrong, every value is accounted for: each step has one
/// entry, under its own label, that says where its value comes from.
pub proof fn every_step_is_accounted_for(src: Sources, steps: Seq<Step>)
    requires
        problems_of(src, steps).len() == 0,
    ensures
        provenance_of(src, steps).len() == steps.len(),
        forall|i: int|
            0 <= i < steps.len() ==> {
                let entry = #[trigger] provenance_of(src, steps)[i];
                &&& entry.0 == label_of(steps[i])
                &&& match steps[i] {
                    Step::Field { label: _, class, candidates } => field_of(
                        src.dump,
                        class,
                        candidates,
                    ) matches Some(found) && entry.1 == ProvenanceView::Derived(found.1),
                    Step::StaticField { label: _, class, candidates } => static_field_of(
                        src.dump,
                        class,
                        candidates,
                    ) matches Some(found) && entry.1 == ProvenanceView::Derived(found.1),
                    Step::Layout { label: _, description } => entry.1 == ProvenanceView::Layout(
                        description,
                    ),
                    Step::Carried { label: _, why } => entry.1 == ProvenanceView::Carried(why),
                    Step::Signature { label: _, of } => entry.1 == ProvenanceView::SignatureFor(of),
                }
            },
    decreases steps.len(),
{
    if steps.len() > 0 {
        let fewer = steps.drop_last();
        let last = steps.len() - 1;
        every_step_is_accounted_for(src, fewer);
        let before = provenance_of(src, fewer);
        let all = provenance_of(src, steps);
        assert(step_problem(src, steps.last()) is None);
        assert(all.len() == steps.len());
        assert forall|i: int| 0 <= i < last implies #[trigger] all[i] == before[i] && steps[i]
            == fewer[i] by {}
        assert(steps[last] == steps.last());
    }
}

} // verus!
