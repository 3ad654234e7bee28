//! What a generated file holds, said of its fields and of the dump: where each
//! number stands, what it takes for a run to succeed, and how the chains relate.

use vstd::prelude::*;

use crate::dumpcs::{candidate_from, field_of, static_candidate_from, static_field_of, ClassView};
use crate::generate::{
    after_chains, after_client, after_outfit, after_player, after_position, after_record,
    after_rest, after_write_path, block, buffer_length, by_offset, carried, either, field, laid,
    layout, lemma_laid, offset_of, offsets_from, one, plan, player_from, position, problems_of,
    record_field, record_fields, signature, static_field, static_offset_of, step_note,
    step_problem, struct_of, sums_fit, two, value, RecordField, Sources, Step,
};
use crate::offsets::{layout_views, total_size, Offsets, Player, StructMember, StructMemberView};
use crate::pe::Arch;
use crate::siggen::slot_signature;
use crate::text::strip_suffix;
use crate::validate::{
    field_size, lemma_by_offset, lemma_laid_end, lemma_sorted_apart, one_after_the_other, well_laid,
};

verus! {

/// The dump has the field, as an instance field or else as a static one.
pub open spec fn dump_has(
    dump: Map<Seq<char>, ClassView>,
    class: Seq<char>,
    name: Seq<char>,
) -> bool {
    dump.contains_key(class) && dump[class].field(name) is Some
}

/// The dump has the field under one of two names.
pub open spec fn has_either(
    dump: Map<Seq<char>, ClassView>,
    class: Seq<char>,
    name: Seq<char>,
    other: Seq<char>,
) -> bool {
    dump_has(dump, class, name) || dump_has(dump, class, other)
}

/// The dump has the static field.
pub open spec fn has_static(
    dump: Map<Seq<char>, ClassView>,
    class: Seq<char>,
    name: Seq<char>,
) -> bool {
    dump.contains_key(class) && dump[class].static_field(name) is Some
}

/// The type has a slot that a signature can be made for.
pub open spec fn signed(src: Sources, of: Seq<char>) -> bool {
    src.types.contains_key(of) && slot_signature(src.image, src.types[of]) is Ok
}

/// The dump has the field at this offset.
pub open spec fn stands(
    dump: Map<Seq<char>, ClassView>,
    class: Seq<char>,
    name: Seq<char>,
    offset: i64,
) -> bool {
    &&& dump.contains_key(class)
    &&& dump[class].field(name) matches Some(found) && found.offset == offset
}

/// The dump has the field at this offset under the first of two names, or has
/// no field of that name and has it under the second.
pub open spec fn stands_as(
    dump: Map<Seq<char>, ClassView>,
    class: Seq<char>,
    name: Seq<char>,
    other: Seq<char>,
    offset: i64,
) -> bool {
    if dump_has(dump, class, name) {
        stands(dump, class, name, offset)
    } else {
        stands(dump, class, other, offset)
    }
}

/// The dump has the static field at this offset.
pub open spec fn stands_static(
    dump: Map<Seq<char>, ClassView>,
    class: Seq<char>,
    name: Seq<char>,
    offset: i64,
) -> bool {
    &&& dump.contains_key(class)
    &&& dump[class].static_field(name) matches Some(found) && found.offset == offset
}

/// Everything that a file is made from is there: a signature for each class that
/// is resolved at runtime, and every field that is read.
pub open spec fn complete(src: Sources) -> bool {
    &&& signed(src, "AmongUsClient"@)
    &&& signed(src, "GameData"@)
    &&& signed(src, "GameOptionsManager"@)
    &&& signed(src, "MeetingHud"@)
    &&& signed(src, "Minigame"@)
    &&& signed(src, "Palette"@)
    &&& signed(src, "PlayerControl"@)
    &&& signed(src, "ServerManager"@)
    &&& signed(src, "ShipStatus"@)
    &&& dump_has(src.dump, "AmongUsClient"@, "MainMenuScene"@)
    &&& dump_has(src.dump, "AmongUsClient"@, "OnlineScene"@)
    &&& dump_has(src.dump, "CosmeticsLayer"@, "localPlayer"@)
    &&& dump_has(src.dump, "CosmeticsLayer"@, "nameText"@)
    &&& dump_has(src.dump, "CustomNetworkTransform"@, "body"@)
    &&& dump_has(src.dump, "DeconSystem"@, "LowerDoor"@)
    &&& dump_has(src.dump, "DeconSystem"@, "UpperDoor"@)
    &&& dump_has(src.dump, "GameData"@, "AllPlayers"@)
    &&& dump_has(src.dump, "GameOptionsManager"@, "currentGameOptions"@)
    &&& dump_has(src.dump, "HqHudSystemType"@, "CompletedConsoles"@)
    &&& dump_has(src.dump, "HudOverrideSystemType"@, "<IsActive>k__BackingField"@)
    &&& dump_has(src.dump, "InnerNetClient"@, "ClientId"@)
    &&& dump_has(src.dump, "InnerNetClient"@, "GameId"@)
    &&& dump_has(src.dump, "InnerNetClient"@, "GameState"@)
    &&& dump_has(src.dump, "InnerNetClient"@, "HostId"@)
    &&& dump_has(src.dump, "InnerNetClient"@, "networkAddress"@)
    &&& dump_has(src.dump, "InnerNetClient"@, "networkPort"@)
    &&& dump_has(src.dump, "InnerNetObject"@, "OwnerId"@)
    &&& dump_has(src.dump, "MeetingHud"@, "state"@)
    &&& dump_has(src.dump, "NetworkedPlayerInfo"@, "Disconnected"@)
    &&& dump_has(src.dump, "NetworkedPlayerInfo"@, "IsDead"@)
    &&& dump_has(src.dump, "NetworkedPlayerInfo"@, "Outfits"@)
    &&& dump_has(src.dump, "NetworkedPlayerInfo"@, "PlayerId"@)
    &&& dump_has(src.dump, "NetworkedPlayerInfo"@, "PlayerLevel"@)
    &&& dump_has(src.dump, "NetworkedPlayerInfo"@, "Role"@)
    &&& dump_has(src.dump, "NetworkedPlayerInfo"@, "Tasks"@)
    &&& dump_has(src.dump, "NetworkedPlayerInfo"@, "_object"@)
    &&& dump_has(src.dump, "NetworkedPlayerInfo.PlayerOutfit"@, "ColorId"@)
    &&& dump_has(src.dump, "NetworkedPlayerInfo.PlayerOutfit"@, "HatId"@)
    &&& dump_has(src.dump, "NetworkedPlayerInfo.PlayerOutfit"@, "SkinId"@)
    &&& dump_has(src.dump, "NetworkedPlayerInfo.PlayerOutfit"@, "VisorId"@)
    &&& dump_has(src.dump, "NormalGameOptionsV11"@, "<MapId>k__BackingField"@)
    &&& dump_has(src.dump, "NormalGameOptionsV11"@, "<MaxPlayers>k__BackingField"@)
    &&& dump_has(src.dump, "OpenableDoor"@, "Id"@)
    &&& dump_has(src.dump, "PlainDoor"@, "Open"@)
    &&& dump_has(src.dump, "PlanetSurveillanceMinigame"@, "currentCamera"@)
    &&& dump_has(src.dump, "PlanetSurveillanceMinigame"@, "survCameras"@)
    &&& dump_has(src.dump, "PlayerControl"@, "<CurrentOutfitType>k__BackingField"@)
    &&& dump_has(src.dump, "PlayerControl"@, "NetTransform"@)
    &&& dump_has(src.dump, "PlayerControl"@, "cosmetics"@)
    &&& dump_has(src.dump, "PlayerControl"@, "inVent"@)
    &&& dump_has(src.dump, "PlayerControl"@, "isDummy"@)
    &&& dump_has(src.dump, "RoleBehaviour"@, "TeamType"@)
    &&& dump_has(src.dump, "ShipStatus"@, "AllDoors"@)
    &&& dump_has(src.dump, "ShipStatus"@, "Systems"@)
    &&& dump_has(src.dump, "ShipStatus"@, "Type"@)
    &&& dump_has(src.dump, "SurveillanceMinigame"@, "FilteredRooms"@)
    &&& dump_has(src.dump, "TMP_Text"@, "m_text"@)
    &&& has_either(src.dump, "InnerNetClient"@, "GameMode"@, "NetworkMode"@)
    &&& has_either(src.dump, "LightSource"@, "viewDistance"@, "LightRadius"@)
    &&& has_either(src.dump, "NetworkedPlayerInfo.PlayerOutfit"@, "PlayerName"@, "_playerName"@)
    &&& has_either(src.dump, "PlayerControl"@, "lightSource"@, "myLight"@)
    &&& has_static(src.dump, "Palette"@, "PlayerColors"@)
    &&& has_static(src.dump, "Palette"@, "ShadowColors"@)
}

proof fn lemma_one(src: Sources, class: Seq<char>, name: Seq<char>)
    ensures
        field_of(src.dump, class, one(name)) is Some <==> dump_has(src.dump, class, name),
        dump_has(src.dump, class, name) ==> stands(src.dump, class, name, value(src, class, name)),
        static_field_of(src.dump, class, one(name)) is Some <==> has_static(src.dump, class, name),
        has_static(src.dump, class, name) ==> stands_static(
            src.dump,
            class,
            name,
            static_offset_of(src, class, one(name)),
        ),
{
    assert(one(name)[0] == name);
    if src.dump.contains_key(class) {
        reveal_with_fuel(candidate_from, 2);
        reveal_with_fuel(static_candidate_from, 2);
    }
}

proof fn lemma_two(src: Sources, class: Seq<char>, name: Seq<char>, other: Seq<char>)
    ensures
        field_of(src.dump, class, two(name, other)) is Some <==> has_either(
            src.dump,
            class,
            name,
            other,
        ),
        has_either(src.dump, class, name, other) ==> stands_as(
            src.dump,
            class,
            name,
            other,
            offset_of(src, class, two(name, other)),
        ),
{
    assert(two(name, other)[0] == name);
    assert(two(name, other)[1] == other);
    if src.dump.contains_key(class) {
        reveal_with_fuel(candidate_from, 3);
    }
}

/// The last of some steps comes off: nothing is wrong with all of them if and
/// only if nothing is wrong with the others and with it.
proof fn lemma_peel(src: Sources, steps: Seq<Step>, step: Step)
    ensures
        problems_of(src, steps.push(step)).len() == 0 <==> problems_of(src, steps).len() == 0
            && step_problem(src, step) is None,
{
    assert(steps.push(step).drop_last() =~= steps);
}

proof fn lemma_field(
    src: Sources,
    steps: Seq<Step>,
    label: Seq<char>,
    class: Seq<char>,
    name: Seq<char>,
)
    ensures
        problems_of(src, steps.push(field(label, class, name))).len() == 0 <==> problems_of(
            src,
            steps,
        ).len() == 0 && dump_has(src.dump, class, name),
{
    lemma_peel(src, steps, field(label, class, name));
    lemma_one(src, class, name);
}

proof fn lemma_record_field(src: Sources, steps: Seq<Step>, name: Seq<char>, of: Seq<char>)
    ensures
        problems_of(src, steps.push(record_field(name, of))).len() == 0 <==> problems_of(
            src,
            steps,
        ).len() == 0 && dump_has(src.dump, "NetworkedPlayerInfo"@, of),
{
    lemma_field(src, steps, "player.struct."@ + name, "NetworkedPlayerInfo"@, of);
}

proof fn lemma_either(
    src: Sources,
    steps: Seq<Step>,
    label: Seq<char>,
    class: Seq<char>,
    name: Seq<char>,
    other: Seq<char>,
)
    ensures
        problems_of(src, steps.push(either(label, class, name, other))).len() == 0
            <==> problems_of(src, steps).len() == 0 && has_either(src.dump, class, name, other),
{
    lemma_peel(src, steps, either(label, class, name, other));
    lemma_two(src, class, name, other);
}

proof fn lemma_static_field(
    src: Sources,
    steps: Seq<Step>,
    label: Seq<char>,
    class: Seq<char>,
    name: Seq<char>,
)
    ensures
        problems_of(src, steps.push(static_field(label, class, name))).len() == 0
            <==> problems_of(src, steps).len() == 0 && has_static(src.dump, class, name),
{
    lemma_peel(src, steps, static_field(label, class, name));
    lemma_one(src, class, name);
}

proof fn lemma_signature(src: Sources, steps: Seq<Step>, label: Seq<char>, of: Seq<char>)
    ensures
        problems_of(src, steps.push(signature(label, of))).len() == 0 <==> problems_of(
            src,
            steps,
        ).len() == 0 && signed(src, of),
{
    lemma_peel(src, steps, signature(label, of));
}

/// What it takes to read the chains that start at a static class.
proof fn lemma_chains(src: Sources, before: Seq<Step>)
    ensures
        problems_of(src, after_chains(before)).len() == 0 <==> {
            &&& problems_of(src, before).len() == 0
            &&& signed(src, "MeetingHud"@)
            &&& signed(src, "ShipStatus"@)
            &&& signed(src, "Minigame"@)
            &&& signed(src, "Palette"@)
            &&& signed(src, "GameData"@)
            &&& dump_has(src.dump, "GameData"@, "AllPlayers"@)
            &&& signed(src, "GameOptionsManager"@)
            &&& dump_has(src.dump, "GameOptionsManager"@, "currentGameOptions"@)
            &&& signed(src, "ServerManager"@)
            &&& signed(src, "AmongUsClient"@)
            &&& signed(src, "PlayerControl"@)
        },
{
    let s = before;
    lemma_signature(src, s, "meetingHud"@, "MeetingHud"@);
    let s = s.push(signature("meetingHud"@, "MeetingHud"@));
    lemma_signature(src, s, "shipStatus"@, "ShipStatus"@);
    let s = s.push(signature("shipStatus"@, "ShipStatus"@));
    lemma_signature(src, s, "miniGame"@, "Minigame"@);
    let s = s.push(signature("miniGame"@, "Minigame"@));
    lemma_signature(src, s, "palette"@, "Palette"@);
    let s = s.push(signature("palette"@, "Palette"@));
    lemma_signature(src, s, "allPlayersPtr"@, "GameData"@);
    let s = s.push(signature("allPlayersPtr"@, "GameData"@));
    lemma_field(src, s, "allPlayersPtr[3]"@, "GameData"@, "AllPlayers"@);
    let s = s.push(field("allPlayersPtr[3]"@, "GameData"@, "AllPlayers"@));
    lemma_signature(src, s, "gameoptionsData"@, "GameOptionsManager"@);
    let s = s.push(signature("gameoptionsData"@, "GameOptionsManager"@));
    lemma_field(src, s, "gameoptionsData[3]"@, "GameOptionsManager"@, "currentGameOptions"@);
    let s = s.push(field("gameoptionsData[3]"@, "GameOptionsManager"@, "currentGameOptions"@));
    lemma_signature(src, s, "serverManager_currentServer"@, "ServerManager"@);
    let s = s.push(signature("serverManager_currentServer"@, "ServerManager"@));
    lemma_peel(
        src,
        s,
        carried(
            "serverManager_currentServer tail"@,
            "singleton walk to the current region name; never re-derived from a dump"@,
        ),
    );
    let s = s.push(
        carried(
            "serverManager_currentServer tail"@,
            "singleton walk to the current region name; never re-derived from a dump"@,
        ),
    );
    lemma_peel(
        src,
        s,
        carried(
            "playerControl_GameOptions"@,
            "vestigial; the client stopped reading it when newGameOptions arrived"@,
        ),
    );
    let s = s.push(
        carried(
            "playerControl_GameOptions"@,
            "vestigial; the client stopped reading it when newGameOptions arrived"@,
        ),
    );
    lemma_signature(src, s, "innerNetClient.base"@, "AmongUsClient"@);
    let s = s.push(signature("innerNetClient.base"@, "AmongUsClient"@));
    lemma_signature(src, s, "signatures.playerControl"@, "PlayerControl"@);
    let s = s.push(signature("signatures.playerControl"@, "PlayerControl"@));
    assert(s == after_chains(before));
}

/// What it takes to read doors and a player's position.
proof fn lemma_position(src: Sources, before: Seq<Step>)
    ensures
        problems_of(src, after_position(before)).len() == 0 <==> {
            &&& problems_of(src, before).len() == 0
            &&& dump_has(src.dump, "PlainDoor"@, "Open"@)
            &&& dump_has(src.dump, "DeconSystem"@, "UpperDoor"@)
            &&& dump_has(src.dump, "DeconSystem"@, "LowerDoor"@)
            &&& dump_has(src.dump, "PlayerControl"@, "cosmetics"@)
            &&& dump_has(src.dump, "PlayerControl"@, "NetTransform"@)
            &&& dump_has(src.dump, "CustomNetworkTransform"@, "body"@)
        },
{
    let s = before;
    lemma_field(src, s, "door_isOpen"@, "PlainDoor"@, "Open"@);
    let s = s.push(field("door_isOpen"@, "PlainDoor"@, "Open"@));
    lemma_field(src, s, "deconDoorUpperOpen[0]"@, "DeconSystem"@, "UpperDoor"@);
    let s = s.push(field("deconDoorUpperOpen[0]"@, "DeconSystem"@, "UpperDoor"@));
    lemma_field(src, s, "deconDoorLowerOpen[0]"@, "DeconSystem"@, "LowerDoor"@);
    let s = s.push(field("deconDoorLowerOpen[0]"@, "DeconSystem"@, "LowerDoor"@));
    lemma_field(src, s, "player.cosmetics"@, "PlayerControl"@, "cosmetics"@);
    let s = s.push(field("player.cosmetics"@, "PlayerControl"@, "cosmetics"@));
    lemma_field(src, s, "player.NetTransform"@, "PlayerControl"@, "NetTransform"@);
    let s = s.push(field("player.NetTransform"@, "PlayerControl"@, "NetTransform"@));
    lemma_field(src, s, "player.body"@, "CustomNetworkTransform"@, "body"@);
    let s = s.push(field("player.body"@, "CustomNetworkTransform"@, "body"@));
    lemma_peel(
        src,
        s,
        layout(
            "player.localX[2]"@,
            "UnityEngine.Object.m_CachedPtr, first field after the object header"@,
        ),
    );
    let s = s.push(
        layout(
            "player.localX[2]"@,
            "UnityEngine.Object.m_CachedPtr, first field after the object header"@,
        ),
    );
    lemma_peel(
        src,
        s,
        carried(
            "player.localX[3]"@,
            "position.x inside the native Rigidbody2D; native layout, absent from any dump"@,
        ),
    );
    let s = s.push(
        carried(
            "player.localX[3]"@,
            "position.x inside the native Rigidbody2D; native layout, absent from any dump"@,
        ),
    );
    assert(s == after_position(before));
}

/// What it takes to read the player record.
proof fn lemma_record(src: Sources, before: Seq<Step>)
    ensures
        problems_of(src, after_record(before)).len() == 0 <==> {
            &&& problems_of(src, before).len() == 0
            &&& dump_has(src.dump, "NetworkedPlayerInfo"@, "PlayerId"@)
            &&& dump_has(src.dump, "NetworkedPlayerInfo"@, "Outfits"@)
            &&& dump_has(src.dump, "NetworkedPlayerInfo"@, "PlayerLevel"@)
            &&& dump_has(src.dump, "NetworkedPlayerInfo"@, "Disconnected"@)
            &&& dump_has(src.dump, "NetworkedPlayerInfo"@, "Role"@)
            &&& dump_has(src.dump, "NetworkedPlayerInfo"@, "Tasks"@)
            &&& dump_has(src.dump, "NetworkedPlayerInfo"@, "IsDead"@)
            &&& dump_has(src.dump, "NetworkedPlayerInfo"@, "_object"@)
        },
{
    let s = before;
    lemma_record_field(src, s, "id"@, "PlayerId"@);
    let s = s.push(record_field("id"@, "PlayerId"@));
    lemma_record_field(src, s, "outfitsPtr"@, "Outfits"@);
    let s = s.push(record_field("outfitsPtr"@, "Outfits"@));
    lemma_record_field(src, s, "playerLevel"@, "PlayerLevel"@);
    let s = s.push(record_field("playerLevel"@, "PlayerLevel"@));
    lemma_record_field(src, s, "disconnected"@, "Disconnected"@);
    let s = s.push(record_field("disconnected"@, "Disconnected"@));
    lemma_record_field(src, s, "rolePtr"@, "Role"@);
    let s = s.push(record_field("rolePtr"@, "Role"@));
    lemma_record_field(src, s, "taskPtr"@, "Tasks"@);
    let s = s.push(record_field("taskPtr"@, "Tasks"@));
    lemma_record_field(src, s, "dead"@, "IsDead"@);
    let s = s.push(record_field("dead"@, "IsDead"@));
    lemma_record_field(src, s, "objectPtr"@, "_object"@);
    let s = s.push(record_field("objectPtr"@, "_object"@));
    assert(s == after_record(before));
}

/// What it takes to read the rest of a player.
proof fn lemma_player(src: Sources, before: Seq<Step>)
    ensures
        problems_of(src, after_player(before)).len() == 0 <==> {
            &&& problems_of(src, before).len() == 0
            &&& dump_has(src.dump, "PlayerControl"@, "isDummy"@)
            &&& dump_has(src.dump, "CosmeticsLayer"@, "localPlayer"@)
            &&& dump_has(src.dump, "PlayerControl"@, "inVent"@)
            &&& dump_has(src.dump, "InnerNetObject"@, "OwnerId"@)
            &&& dump_has(src.dump, "PlayerControl"@, "<CurrentOutfitType>k__BackingField"@)
            &&& dump_has(src.dump, "RoleBehaviour"@, "TeamType"@)
            &&& dump_has(src.dump, "CosmeticsLayer"@, "nameText"@)
            &&& dump_has(src.dump, "TMP_Text"@, "m_text"@)
        },
{
    let s = before;
    lemma_field(src, s, "player.isDummy"@, "PlayerControl"@, "isDummy"@);
    let s = s.push(field("player.isDummy"@, "PlayerControl"@, "isDummy"@));
    lemma_field(src, s, "player.isLocal[1]"@, "CosmeticsLayer"@, "localPlayer"@);
    let s = s.push(field("player.isLocal[1]"@, "CosmeticsLayer"@, "localPlayer"@));
    lemma_peel(
        src,
        s,
        layout(
            "player.bufferLength"@,
            "end of the last field read from NetworkedPlayerInfo"@,
        ),
    );
    let s = s.push(
        layout(
            "player.bufferLength"@,
            "end of the last field read from NetworkedPlayerInfo"@,
        ),
    );
    lemma_field(src, s, "player.inVent"@, "PlayerControl"@, "inVent"@);
    let s = s.push(field("player.inVent"@, "PlayerControl"@, "inVent"@));
    lemma_field(src, s, "player.clientId"@, "InnerNetObject"@, "OwnerId"@);
    let s = s.push(field("player.clientId"@, "InnerNetObject"@, "OwnerId"@));
    lemma_field(
        src,
        s,
        "player.currentOutfit"@,
        "PlayerControl"@,
        "<CurrentOutfitType>k__BackingField"@,
    );
    let s = s.push(
        field(
            "player.currentOutfit"@,
            "PlayerControl"@,
            "<CurrentOutfitType>k__BackingField"@,
        ),
    );
    lemma_field(src, s, "player.roleTeam"@, "RoleBehaviour"@, "TeamType"@);
    let s = s.push(field("player.roleTeam"@, "RoleBehaviour"@, "TeamType"@));
    lemma_field(src, s, "player.nameText[1]"@, "CosmeticsLayer"@, "nameText"@);
    let s = s.push(field("player.nameText[1]"@, "CosmeticsLayer"@, "nameText"@));
    lemma_field(src, s, "player.nameText[2]"@, "TMP_Text"@, "m_text"@);
    let s = s.push(field("player.nameText[2]"@, "TMP_Text"@, "m_text"@));
    assert(s == after_player(before));
}

/// What it takes to read an outfit.
proof fn lemma_outfit(src: Sources, before: Seq<Step>)
    ensures
        problems_of(src, after_outfit(before)).len() == 0 <==> {
            &&& problems_of(src, before).len() == 0
            &&& dump_has(src.dump, "NetworkedPlayerInfo.PlayerOutfit"@, "ColorId"@)
            &&& dump_has(src.dump, "NetworkedPlayerInfo.PlayerOutfit"@, "HatId"@)
            &&& dump_has(src.dump, "NetworkedPlayerInfo.PlayerOutfit"@, "SkinId"@)
            &&& dump_has(src.dump, "NetworkedPlayerInfo.PlayerOutfit"@, "VisorId"@)
            &&& has_either(
                src.dump,
                "NetworkedPlayerInfo.PlayerOutfit"@,
                "PlayerName"@,
                "_playerName"@,
            )
        },
{
    let s = before;
    lemma_field(src, s, "player.outfit.colorId"@, "NetworkedPlayerInfo.PlayerOutfit"@, "ColorId"@);
    let s = s.push(
        field(
            "player.outfit.colorId"@,
            "NetworkedPlayerInfo.PlayerOutfit"@,
            "ColorId"@,
        ),
    );
    lemma_field(src, s, "player.outfit.hatId"@, "NetworkedPlayerInfo.PlayerOutfit"@, "HatId"@);
    let s = s.push(field("player.outfit.hatId"@, "NetworkedPlayerInfo.PlayerOutfit"@, "HatId"@));
    lemma_field(src, s, "player.outfit.skinId"@, "NetworkedPlayerInfo.PlayerOutfit"@, "SkinId"@);
    let s = s.push(field("player.outfit.skinId"@, "NetworkedPlayerInfo.PlayerOutfit"@, "SkinId"@));
    lemma_field(src, s, "player.outfit.visorId"@, "NetworkedPlayerInfo.PlayerOutfit"@, "VisorId"@);
    let s = s.push(
        field(
            "player.outfit.visorId"@,
            "NetworkedPlayerInfo.PlayerOutfit"@,
            "VisorId"@,
        ),
    );
    lemma_either(
        src,
        s,
        "player.outfit.playerName"@,
        "NetworkedPlayerInfo.PlayerOutfit"@,
        "PlayerName"@,
        "_playerName"@,
    );
    let s = s.push(
        either(
            "player.outfit.playerName"@,
            "NetworkedPlayerInfo.PlayerOutfit"@,
            "PlayerName"@,
            "_playerName"@,
        ),
    );
    assert(s == after_outfit(before));
}

/// What it takes to read the client.
proof fn lemma_client(src: Sources, before: Seq<Step>)
    ensures
        problems_of(src, after_client(before)).len() == 0 <==> {
            &&& problems_of(src, before).len() == 0
            &&& dump_has(src.dump, "InnerNetClient"@, "networkAddress"@)
            &&& dump_has(src.dump, "InnerNetClient"@, "networkPort"@)
            &&& has_either(src.dump, "InnerNetClient"@, "GameMode"@, "NetworkMode"@)
            &&& dump_has(src.dump, "InnerNetClient"@, "GameId"@)
            &&& dump_has(src.dump, "InnerNetClient"@, "HostId"@)
            &&& dump_has(src.dump, "InnerNetClient"@, "ClientId"@)
            &&& dump_has(src.dump, "InnerNetClient"@, "GameState"@)
            &&& dump_has(src.dump, "AmongUsClient"@, "OnlineScene"@)
            &&& dump_has(src.dump, "AmongUsClient"@, "MainMenuScene"@)
        },
{
    let s = before;
    lemma_field(src, s, "innerNetClient.networkAddress"@, "InnerNetClient"@, "networkAddress"@);
    let s = s.push(field("innerNetClient.networkAddress"@, "InnerNetClient"@, "networkAddress"@));
    lemma_field(src, s, "innerNetClient.networkPort"@, "InnerNetClient"@, "networkPort"@);
    let s = s.push(field("innerNetClient.networkPort"@, "InnerNetClient"@, "networkPort"@));
    lemma_either(
        src,
        s,
        "innerNetClient.gameMode"@,
        "InnerNetClient"@,
        "GameMode"@,
        "NetworkMode"@,
    );
    let s = s.push(
        either(
            "innerNetClient.gameMode"@,
            "InnerNetClient"@,
            "GameMode"@,
            "NetworkMode"@,
        ),
    );
    lemma_field(src, s, "innerNetClient.gameId"@, "InnerNetClient"@, "GameId"@);
    let s = s.push(field("innerNetClient.gameId"@, "InnerNetClient"@, "GameId"@));
    lemma_field(src, s, "innerNetClient.hostId"@, "InnerNetClient"@, "HostId"@);
    let s = s.push(field("innerNetClient.hostId"@, "InnerNetClient"@, "HostId"@));
    lemma_field(src, s, "innerNetClient.clientId"@, "InnerNetClient"@, "ClientId"@);
    let s = s.push(field("innerNetClient.clientId"@, "InnerNetClient"@, "ClientId"@));
    lemma_field(src, s, "innerNetClient.gameState"@, "InnerNetClient"@, "GameState"@);
    let s = s.push(field("innerNetClient.gameState"@, "InnerNetClient"@, "GameState"@));
    lemma_field(src, s, "innerNetClient.onlineScene"@, "AmongUsClient"@, "OnlineScene"@);
    let s = s.push(field("innerNetClient.onlineScene"@, "AmongUsClient"@, "OnlineScene"@));
    lemma_field(src, s, "innerNetClient.mainMenuScene"@, "AmongUsClient"@, "MainMenuScene"@);
    let s = s.push(field("innerNetClient.mainMenuScene"@, "AmongUsClient"@, "MainMenuScene"@));
    assert(s == after_client(before));
}

/// What it takes to read everything else.
proof fn lemma_rest(src: Sources, before: Seq<Step>)
    ensures
        problems_of(src, after_rest(before)).len() == 0 <==> {
            &&& problems_of(src, before).len() == 0
            &&& dump_has(src.dump, "MeetingHud"@, "state"@)
            &&& dump_has(src.dump, "ShipStatus"@, "Systems"@)
            &&& dump_has(src.dump, "ShipStatus"@, "Type"@)
            &&& dump_has(src.dump, "ShipStatus"@, "AllDoors"@)
            &&& dump_has(src.dump, "OpenableDoor"@, "Id"@)
            &&& dump_has(src.dump, "HqHudSystemType"@, "CompletedConsoles"@)
            &&& dump_has(src.dump, "HudOverrideSystemType"@, "<IsActive>k__BackingField"@)
            &&& dump_has(src.dump, "PlanetSurveillanceMinigame"@, "currentCamera"@)
            &&& dump_has(src.dump, "PlanetSurveillanceMinigame"@, "survCameras"@)
            &&& dump_has(src.dump, "SurveillanceMinigame"@, "FilteredRooms"@)
            &&& has_either(src.dump, "PlayerControl"@, "lightSource"@, "myLight"@)
            &&& has_either(src.dump, "LightSource"@, "viewDistance"@, "LightRadius"@)
            &&& has_static(src.dump, "Palette"@, "PlayerColors"@)
            &&& has_static(src.dump, "Palette"@, "ShadowColors"@)
            &&& dump_has(src.dump, "NormalGameOptionsV11"@, "<MapId>k__BackingField"@)
            &&& dump_has(src.dump, "NormalGameOptionsV11"@, "<MaxPlayers>k__BackingField"@)
        },
{
    let s = before;
    lemma_peel(src, s, layout("objectCachePtr"@, "Il2CppObject header"@));
    let s = s.push(layout("objectCachePtr"@, "Il2CppObject header"@));
    lemma_field(src, s, "meetingHudState"@, "MeetingHud"@, "state"@);
    let s = s.push(field("meetingHudState"@, "MeetingHud"@, "state"@));
    lemma_peel(src, s, layout("allPlayers"@, "List<T>::_items"@));
    let s = s.push(layout("allPlayers"@, "List<T>::_items"@));
    lemma_peel(src, s, layout("playerCount"@, "List<T>::_size"@));
    let s = s.push(layout("playerCount"@, "List<T>::_size"@));
    lemma_peel(src, s, layout("playerAddrPtr"@, "Il2CppArray first element"@));
    let s = s.push(layout("playerAddrPtr"@, "Il2CppArray first element"@));
    lemma_field(src, s, "shipStatus_systems"@, "ShipStatus"@, "Systems"@);
    let s = s.push(field("shipStatus_systems"@, "ShipStatus"@, "Systems"@));
    lemma_field(src, s, "shipStatus_map"@, "ShipStatus"@, "Type"@);
    let s = s.push(field("shipStatus_map"@, "ShipStatus"@, "Type"@));
    lemma_field(src, s, "shipstatus_allDoors"@, "ShipStatus"@, "AllDoors"@);
    let s = s.push(field("shipstatus_allDoors"@, "ShipStatus"@, "AllDoors"@));
    lemma_field(src, s, "door_doorId"@, "OpenableDoor"@, "Id"@);
    let s = s.push(field("door_doorId"@, "OpenableDoor"@, "Id"@));
    lemma_field(
        src,
        s,
        "hqHudSystemType_CompletedConsoles"@,
        "HqHudSystemType"@,
        "CompletedConsoles"@,
    );
    let s = s.push(
        field(
            "hqHudSystemType_CompletedConsoles"@,
            "HqHudSystemType"@,
            "CompletedConsoles"@,
        ),
    );
    lemma_peel(src, s, layout("hqHudSystemType_CompletedConsoles[1]"@, "HashSet<T>::_count"@));
    let s = s.push(layout("hqHudSystemType_CompletedConsoles[1]"@, "HashSet<T>::_count"@));
    lemma_field(
        src,
        s,
        "HudOverrideSystemType_isActive"@,
        "HudOverrideSystemType"@,
        "<IsActive>k__BackingField"@,
    );
    let s = s.push(
        field(
            "HudOverrideSystemType_isActive"@,
            "HudOverrideSystemType"@,
            "<IsActive>k__BackingField"@,
        ),
    );
    lemma_field(
        src,
        s,
        "planetSurveillanceMinigame_currentCamera"@,
        "PlanetSurveillanceMinigame"@,
        "currentCamera"@,
    );
    let s = s.push(
        field(
            "planetSurveillanceMinigame_currentCamera"@,
            "PlanetSurveillanceMinigame"@,
            "currentCamera"@,
        ),
    );
    lemma_field(
        src,
        s,
        "planetSurveillanceMinigame_camarasCount"@,
        "PlanetSurveillanceMinigame"@,
        "survCameras"@,
    );
    let s = s.push(
        field(
            "planetSurveillanceMinigame_camarasCount"@,
            "PlanetSurveillanceMinigame"@,
            "survCameras"@,
        ),
    );
    lemma_peel(
        src,
        s,
        layout(
            "planetSurveillanceMinigame_camarasCount[1]"@,
            "Il2CppArray::max_length"@,
        ),
    );
    let s = s.push(
        layout(
            "planetSurveillanceMinigame_camarasCount[1]"@,
            "Il2CppArray::max_length"@,
        ),
    );
    lemma_field(
        src,
        s,
        "surveillanceMinigame_FilteredRoomsCount"@,
        "SurveillanceMinigame"@,
        "FilteredRooms"@,
    );
    let s = s.push(
        field(
            "surveillanceMinigame_FilteredRoomsCount"@,
            "SurveillanceMinigame"@,
            "FilteredRooms"@,
        ),
    );
    lemma_peel(
        src,
        s,
        layout(
            "surveillanceMinigame_FilteredRoomsCount[1]"@,
            "Il2CppArray::max_length"@,
        ),
    );
    let s = s.push(
        layout(
            "surveillanceMinigame_FilteredRoomsCount[1]"@,
            "Il2CppArray::max_length"@,
        ),
    );
    lemma_either(src, s, "lightRadius[0]"@, "PlayerControl"@, "lightSource"@, "myLight"@);
    let s = s.push(either("lightRadius[0]"@, "PlayerControl"@, "lightSource"@, "myLight"@));
    lemma_either(src, s, "lightRadius[1]"@, "LightSource"@, "viewDistance"@, "LightRadius"@);
    let s = s.push(either("lightRadius[1]"@, "LightSource"@, "viewDistance"@, "LightRadius"@));
    lemma_static_field(src, s, "palette_playercolor"@, "Palette"@, "PlayerColors"@);
    let s = s.push(static_field("palette_playercolor"@, "Palette"@, "PlayerColors"@));
    lemma_static_field(src, s, "palette_shadowColor"@, "Palette"@, "ShadowColors"@);
    let s = s.push(static_field("palette_shadowColor"@, "Palette"@, "ShadowColors"@));
    lemma_field(src, s, "gameOptions_MapId"@, "NormalGameOptionsV11"@, "<MapId>k__BackingField"@);
    let s = s.push(field("gameOptions_MapId"@, "NormalGameOptionsV11"@, "<MapId>k__BackingField"@));
    lemma_field(
        src,
        s,
        "gameOptions_MaxPLayers"@,
        "NormalGameOptionsV11"@,
        "<MaxPlayers>k__BackingField"@,
    );
    let s = s.push(
        field(
            "gameOptions_MaxPLayers"@,
            "NormalGameOptionsV11"@,
            "<MaxPlayers>k__BackingField"@,
        ),
    );
    assert(s == after_rest(before));
}

/// A run succeeds if and only if everything that the file is made from is there.
pub proof fn a_run_succeeds_exactly_if_everything_is_there(src: Sources)
    ensures
        problems_of(src, plan(src)).len() == 0 <==> complete(src),
{
    let none: Seq<Step> = Seq::empty();
    lemma_chains(src, none);
    let s = after_chains(none);
    lemma_position(src, s);
    let s = after_position(s);
    lemma_record(src, s);
    let s = after_record(s);
    lemma_player(src, s);
    let s = after_player(s);
    lemma_outfit(src, s);
    let s = after_outfit(s);
    lemma_client(src, s);
    let s = after_client(s);
    if src.base.carried_signatures.show_mod_stamp@.present() {
        lemma_peel(
            src,
            s,
            carried(
                "signatures (write path)"@,
                "function-body signatures for the mod stamp and connect hook; only used when disableWriting is false"@,
            ),
        );
    }
    let s = after_write_path(src, s);
    lemma_rest(src, s);
}

/// How many bytes a pointer takes.
pub open spec fn bytes_of(arch: Arch) -> int {
    if arch == Arch::X64 {
        8
    } else {
        4
    }
}

/// Every number that is read from the dump is the offset that the dump has for its
/// field; every chain that is resolved by signature starts with the marker and
/// `static_fields`; what follows from the runtime follows from the pointer size.
pub proof fn every_value_stands_where_the_dump_has_it(src: Sources, o: Offsets)
    requires
        offsets_from(src, o),
        sums_fit(src),
        problems_of(src, plan(src)).len() == 0,
    ensures
        o.meeting_hud_state@.len() == 1,
        stands(src.dump, "MeetingHud"@, "state"@, o.meeting_hud_state@[0]),
        o.ship_status_systems@.len() == 1,
        stands(src.dump, "ShipStatus"@, "Systems"@, o.ship_status_systems@[0]),
        o.ship_status_map@.len() == 1,
        stands(src.dump, "ShipStatus"@, "Type"@, o.ship_status_map@[0]),
        o.shipstatus_all_doors@.len() == 1,
        stands(src.dump, "ShipStatus"@, "AllDoors"@, o.shipstatus_all_doors@[0]),
        o.decon_door_upper_open@.len() == 2,
        stands(src.dump, "DeconSystem"@, "UpperDoor"@, o.decon_door_upper_open@[0]),
        stands(src.dump, "PlainDoor"@, "Open"@, o.decon_door_upper_open@[1]),
        o.decon_door_lower_open@.len() == 2,
        stands(src.dump, "DeconSystem"@, "LowerDoor"@, o.decon_door_lower_open@[0]),
        stands(src.dump, "PlainDoor"@, "Open"@, o.decon_door_lower_open@[1]),
        o.hq_hud_completed_consoles@.len() == 2,
        stands(src.dump, "HqHudSystemType"@, "CompletedConsoles"@, o.hq_hud_completed_consoles@[0]),
        o.hq_hud_completed_consoles@[1] == 4 * bytes_of(src.image.arch),
        o.hud_override_is_active@.len() == 1,
        stands(
            src.dump,
            "HudOverrideSystemType"@,
            "<IsActive>k__BackingField"@,
            o.hud_override_is_active@[0],
        ),
        o.planet_surveillance_current_camera@.len() == 1,
        stands(
            src.dump,
            "PlanetSurveillanceMinigame"@,
            "currentCamera"@,
            o.planet_surveillance_current_camera@[0],
        ),
        o.planet_surveillance_camaras_count@.len() == 2,
        stands(
            src.dump,
            "PlanetSurveillanceMinigame"@,
            "survCameras"@,
            o.planet_surveillance_camaras_count@[0],
        ),
        o.planet_surveillance_camaras_count@[1] == 3 * bytes_of(src.image.arch),
        o.surveillance_filtered_rooms_count@.len() == 2,
        stands(
            src.dump,
            "SurveillanceMinigame"@,
            "FilteredRooms"@,
            o.surveillance_filtered_rooms_count@[0],
        ),
        o.surveillance_filtered_rooms_count@[1] == 3 * bytes_of(src.image.arch),
        o.light_radius@.len() == 2,
        stands_as(src.dump, "PlayerControl"@, "lightSource"@, "myLight"@, o.light_radius@[0]),
        stands_as(src.dump, "LightSource"@, "viewDistance"@, "LightRadius"@, o.light_radius@[1]),
        o.palette_playercolor@.len() == 1,
        stands_static(src.dump, "Palette"@, "PlayerColors"@, o.palette_playercolor@[0]),
        o.palette_shadow_color@.len() == 1,
        stands_static(src.dump, "Palette"@, "ShadowColors"@, o.palette_shadow_color@[0]),
        o.game_options_map_id@.len() == 1,
        stands(
            src.dump,
            "NormalGameOptionsV11"@,
            "<MapId>k__BackingField"@,
            o.game_options_map_id@[0],
        ),
        o.game_options_max_players@.len() == 1,
        stands(
            src.dump,
            "NormalGameOptionsV11"@,
            "<MaxPlayers>k__BackingField"@,
            o.game_options_max_players@[0],
        ),
        o.object_cache_ptr@.len() == 1,
        o.object_cache_ptr@[0] == 2 * bytes_of(src.image.arch),
        o.all_players@.len() == 1,
        o.all_players@[0] == 2 * bytes_of(src.image.arch),
        o.player_count@.len() == 1,
        o.player_count@[0] == 3 * bytes_of(src.image.arch),
        o.meeting_hud@.len() == 3,
        o.meeting_hud@[0] == -1,
        o.meeting_hud@[1] == src.static_fields,
        o.meeting_hud@[2] == 0,
        o.ship_status@.len() == 3,
        o.ship_status@[0] == -1,
        o.ship_status@[1] == src.static_fields,
        o.ship_status@[2] == 0,
        o.mini_game@.len() == 3,
        o.mini_game@[0] == -1,
        o.mini_game@[1] == src.static_fields,
        o.mini_game@[2] == 0,
        o.palette@.len() == 2,
        o.palette@[0] == -1,
        o.palette@[1] == src.static_fields,
        o.all_players_ptr@.len() == 4,
        o.all_players_ptr@[0] == -1,
        o.all_players_ptr@[1] == src.static_fields,
        o.all_players_ptr@[2] == 0,
        stands(src.dump, "GameData"@, "AllPlayers"@, o.all_players_ptr@[3]),
        o.gameoptions_data@.len() == 4,
        o.gameoptions_data@[0] == -1,
        o.gameoptions_data@[1] == src.static_fields,
        o.gameoptions_data@[2] == 0,
        stands(src.dump, "GameOptionsManager"@, "currentGameOptions"@, o.gameoptions_data@[3]),
        stands(src.dump, "OpenableDoor"@, "Id"@, o.door_door_id),
        stands(src.dump, "PlainDoor"@, "Open"@, o.door_is_open),
        o.player_addr_ptr == 4 * bytes_of(src.image.arch),
{
    a_run_succeeds_exactly_if_everything_is_there(src);
    lemma_one(src, "MeetingHud"@, "state"@);
    lemma_one(src, "ShipStatus"@, "Systems"@);
    lemma_one(src, "ShipStatus"@, "Type"@);
    lemma_one(src, "ShipStatus"@, "AllDoors"@);
    lemma_one(src, "DeconSystem"@, "UpperDoor"@);
    lemma_one(src, "PlainDoor"@, "Open"@);
    lemma_one(src, "DeconSystem"@, "LowerDoor"@);
    lemma_one(src, "HqHudSystemType"@, "CompletedConsoles"@);
    lemma_one(src, "HudOverrideSystemType"@, "<IsActive>k__BackingField"@);
    lemma_one(src, "PlanetSurveillanceMinigame"@, "currentCamera"@);
    lemma_one(src, "PlanetSurveillanceMinigame"@, "survCameras"@);
    lemma_one(src, "SurveillanceMinigame"@, "FilteredRooms"@);
    lemma_two(src, "PlayerControl"@, "lightSource"@, "myLight"@);
    lemma_two(src, "LightSource"@, "viewDistance"@, "LightRadius"@);
    lemma_one(src, "Palette"@, "PlayerColors"@);
    lemma_one(src, "Palette"@, "ShadowColors"@);
    lemma_one(src, "NormalGameOptionsV11"@, "<MapId>k__BackingField"@);
    lemma_one(src, "NormalGameOptionsV11"@, "<MaxPlayers>k__BackingField"@);
    lemma_one(src, "GameData"@, "AllPlayers"@);
    lemma_one(src, "GameOptionsManager"@, "currentGameOptions"@);
    lemma_one(src, "OpenableDoor"@, "Id"@);
}

/// What is read of the client stands where the dump has it.
pub proof fn the_client_is_read_where_the_dump_has_it(src: Sources, o: Offsets)
    requires
        offsets_from(src, o),
        sums_fit(src),
        problems_of(src, plan(src)).len() == 0,
    ensures
        o.inner_net_client.base@.len() == 3,
        o.inner_net_client.base@[0] == -1,
        o.inner_net_client.base@[1] == src.static_fields,
        o.inner_net_client.base@[2] == 0,
        stands(src.dump, "InnerNetClient"@, "networkAddress"@, o.inner_net_client.network_address),
        stands(src.dump, "InnerNetClient"@, "networkPort"@, o.inner_net_client.network_port),
        stands_as(
            src.dump,
            "InnerNetClient"@,
            "GameMode"@,
            "NetworkMode"@,
            o.inner_net_client.game_mode,
        ),
        stands(src.dump, "InnerNetClient"@, "GameId"@, o.inner_net_client.game_id),
        stands(src.dump, "InnerNetClient"@, "HostId"@, o.inner_net_client.host_id),
        stands(src.dump, "InnerNetClient"@, "ClientId"@, o.inner_net_client.client_id),
        stands(src.dump, "InnerNetClient"@, "GameState"@, o.inner_net_client.game_state),
        stands(src.dump, "AmongUsClient"@, "OnlineScene"@, o.inner_net_client.online_scene),
        stands(src.dump, "AmongUsClient"@, "MainMenuScene"@, o.inner_net_client.main_menu_scene),
{
    a_run_succeeds_exactly_if_everything_is_there(src);
    lemma_one(src, "InnerNetClient"@, "networkAddress"@);
    lemma_one(src, "InnerNetClient"@, "networkPort"@);
    lemma_two(src, "InnerNetClient"@, "GameMode"@, "NetworkMode"@);
    lemma_one(src, "InnerNetClient"@, "GameId"@);
    lemma_one(src, "InnerNetClient"@, "HostId"@);
    lemma_one(src, "InnerNetClient"@, "ClientId"@);
    lemma_one(src, "InnerNetClient"@, "GameState"@);
    lemma_one(src, "AmongUsClient"@, "OnlineScene"@);
    lemma_one(src, "AmongUsClient"@, "MainMenuScene"@);
}

/// What is read of a player stands where the dump has it, and a player's position
/// where the base file has it in the native body.
pub proof fn a_player_is_read_where_the_dump_has_it(src: Sources, o: Offsets)
    requires
        offsets_from(src, o),
        sums_fit(src),
        problems_of(src, plan(src)).len() == 0,
    ensures
        o.player.is_dummy@.len() == 1,
        stands(src.dump, "PlayerControl"@, "isDummy"@, o.player.is_dummy@[0]),
        o.player.is_local@.len() == 2,
        stands(src.dump, "PlayerControl"@, "cosmetics"@, o.player.is_local@[0]),
        stands(src.dump, "CosmeticsLayer"@, "localPlayer"@, o.player.is_local@[1]),
        o.player.local_x@.len() == 4,
        stands(src.dump, "PlayerControl"@, "NetTransform"@, o.player.local_x@[0]),
        stands(src.dump, "CustomNetworkTransform"@, "body"@, o.player.local_x@[1]),
        o.player.local_x@[2] == 2 * bytes_of(src.image.arch),
        o.player.local_x@[3] == src.base.native_rigidbody_position_x,
        o.player.local_y@.len() == 4,
        stands(src.dump, "PlayerControl"@, "NetTransform"@, o.player.local_y@[0]),
        stands(src.dump, "CustomNetworkTransform"@, "body"@, o.player.local_y@[1]),
        o.player.local_y@[2] == 2 * bytes_of(src.image.arch),
        o.player.local_y@[3] == src.base.native_rigidbody_position_x + 4,
        o.player.offsets@.len() == 2,
        o.player.offsets@[0] == 0,
        o.player.offsets@[1] == 0,
        o.player.in_vent@.len() == 1,
        stands(src.dump, "PlayerControl"@, "inVent"@, o.player.in_vent@[0]),
        o.player.client_id@.len() == 1,
        stands(src.dump, "InnerNetObject"@, "OwnerId"@, o.player.client_id@[0]),
        o.player.current_outfit@.len() == 1,
        stands(
            src.dump,
            "PlayerControl"@,
            "<CurrentOutfitType>k__BackingField"@,
            o.player.current_outfit@[0],
        ),
        o.player.role_team@.len() == 1,
        stands(src.dump, "RoleBehaviour"@, "TeamType"@, o.player.role_team@[0]),
        o.player.name_text@.len() == 3,
        stands(src.dump, "PlayerControl"@, "cosmetics"@, o.player.name_text@[0]),
        stands(src.dump, "CosmeticsLayer"@, "nameText"@, o.player.name_text@[1]),
        stands(src.dump, "TMP_Text"@, "m_text"@, o.player.name_text@[2]),
        o.player.outfit.color_id@.len() == 1,
        stands(
            src.dump,
            "NetworkedPlayerInfo.PlayerOutfit"@,
            "ColorId"@,
            o.player.outfit.color_id@[0],
        ),
        o.player.outfit.hat_id@.len() == 1,
        stands(src.dump, "NetworkedPlayerInfo.PlayerOutfit"@, "HatId"@, o.player.outfit.hat_id@[0]),
        o.player.outfit.skin_id@.len() == 1,
        stands(
            src.dump,
            "NetworkedPlayerInfo.PlayerOutfit"@,
            "SkinId"@,
            o.player.outfit.skin_id@[0],
        ),
        o.player.outfit.visor_id@.len() == 1,
        stands(
            src.dump,
            "NetworkedPlayerInfo.PlayerOutfit"@,
            "VisorId"@,
            o.player.outfit.visor_id@[0],
        ),
        o.player.outfit.player_name@.len() == 1,
        stands_as(
            src.dump,
            "NetworkedPlayerInfo.PlayerOutfit"@,
            "PlayerName"@,
            "_playerName"@,
            o.player.outfit.player_name@[0],
        ),
        stands(
            src.dump,
            "NetworkedPlayerInfo"@,
            "_object"@,
            (o.player.buffer_length - bytes_of(src.image.arch)) as i64,
        ),
{
    a_run_succeeds_exactly_if_everything_is_there(src);
    lemma_one(src, "PlayerControl"@, "isDummy"@);
    lemma_one(src, "PlayerControl"@, "cosmetics"@);
    lemma_one(src, "CosmeticsLayer"@, "localPlayer"@);
    lemma_one(src, "PlayerControl"@, "NetTransform"@);
    lemma_one(src, "CustomNetworkTransform"@, "body"@);
    lemma_one(src, "PlayerControl"@, "inVent"@);
    lemma_one(src, "InnerNetObject"@, "OwnerId"@);
    lemma_one(src, "PlayerControl"@, "<CurrentOutfitType>k__BackingField"@);
    lemma_one(src, "RoleBehaviour"@, "TeamType"@);
    lemma_one(src, "CosmeticsLayer"@, "nameText"@);
    lemma_one(src, "TMP_Text"@, "m_text"@);
    lemma_one(src, "NetworkedPlayerInfo.PlayerOutfit"@, "ColorId"@);
    lemma_one(src, "NetworkedPlayerInfo.PlayerOutfit"@, "HatId"@);
    lemma_one(src, "NetworkedPlayerInfo.PlayerOutfit"@, "SkinId"@);
    lemma_one(src, "NetworkedPlayerInfo.PlayerOutfit"@, "VisorId"@);
    lemma_two(src, "NetworkedPlayerInfo.PlayerOutfit"@, "PlayerName"@, "_playerName"@);
    lemma_one(src, "NetworkedPlayerInfo"@, "_object"@);
}

proof fn lemma_positions(src: Sources, player: Player)
    requires
        player_from(src, player),
        sums_fit(src),
    ensures
        player.remote_x@ == player.local_x@,
        player.remote_y@ == player.local_y@,
        player.local_x@.len() == 4,
        player.local_y@.drop_last() == player.local_x@.drop_last(),
        player.local_y@.last() == player.local_x@.last() + 4,
{
    let x = src.base.native_rigidbody_position_x as int;
    assert(position(src, x + 4).drop_last() =~= position(src, x).drop_last());
}

/// A remote player's position is read as the local player's is, and `y` follows
/// `x` by four bytes.
pub proof fn y_follows_x_by_four_bytes(src: Sources, o: Offsets)
    requires
        offsets_from(src, o),
        sums_fit(src),
    ensures
        o.player.remote_x@ == o.player.local_x@,
        o.player.remote_y@ == o.player.local_y@,
        o.player.local_x@.len() == 4,
        o.player.local_y@.drop_last() == o.player.local_x@.drop_last(),
        o.player.local_y@.last() == o.player.local_x@.last() + 4,
        o.player.remote_y@.drop_last() == o.player.remote_x@.drop_last(),
        o.player.remote_y@.last() == o.player.remote_x@.last() + 4,
{
    lemma_positions(src, o.player);
}

proof fn lemma_block(src: Sources, tail: Seq<i64>)
    ensures
        (block(src) + tail).len() == 2 + tail.len(),
        (block(src) + tail)[0] == -1,
        (block(src) + tail)[1] == src.static_fields,
        (block(src) + tail).skip(2) == tail,
{
    assert((block(src) + tail).skip(2) =~= tail);
}

/// What no dump has is carried over from the base file as it stands.
pub proof fn what_no_dump_has_is_carried(src: Sources, o: Offsets)
    requires
        offsets_from(src, o),
    ensures
        o.server_manager_current_server@.len() == 2 + src.base.server_manager_tail@.len(),
        o.server_manager_current_server@[0] == -1,
        o.server_manager_current_server@[1] == src.static_fields,
        o.server_manager_current_server@.skip(2) == src.base.server_manager_tail@,
        o.player_control_game_options@.len() == 2
            + src.base.player_control_game_options_tail@.len(),
        o.player_control_game_options@[0] == -1,
        o.player_control_game_options@[1] == src.static_fields,
        o.player_control_game_options@.skip(2) == src.base.player_control_game_options_tail@,
        o.connect_func == src.base.function_placeholders.connect_func,
        o.show_mod_stamp_func == src.base.function_placeholders.show_mod_stamp_func,
        o.mod_late_update_func == src.base.function_placeholders.mod_late_update_func,
        o.fixed_update_func == src.base.function_placeholders.fixed_update_func,
        o.ping_message_string == src.base.function_placeholders.ping_message_string,
        o.signatures.show_mod_stamp@ == src.base.carried_signatures.show_mod_stamp@,
        o.signatures.connect_func@ == src.base.carried_signatures.connect_func@,
        o.signatures.fixed_update_func@ == src.base.carried_signatures.fixed_update_func@,
        o.signatures.ping_message_string@ == src.base.carried_signatures.ping_message_string@,
        o.signatures.mod_late_update@ == src.base.carried_signatures.mod_late_update@,
        o.old_meeting_hud == src.base.flags.old_meeting_hud,
        o.disable_writing == src.base.flags.disable_writing,
        o.new_game_options == src.base.flags.new_game_options,
{
    lemma_block(src, src.base.server_manager_tail@);
    lemma_block(src, src.base.player_control_game_options_tail@);
}

/// Where the dump has a field.
pub open spec fn at(dump: Map<Seq<char>, ClassView>, class: Seq<char>, name: Seq<char>) -> int {
    dump[class].field(name)->0.offset as int
}

/// A member of this name and kind starts this many bytes into the record.
pub open spec fn member_at(
    layout: Seq<StructMember>,
    name: Seq<char>,
    kind: Seq<char>,
    offset: int,
) -> bool {
    exists|k: int|
        0 <= k < layout.len() && (#[trigger] layout[k])@ == StructMemberView::value(kind, name)
            && total_size(layout_views(layout).take(k)) == offset
}

/// Fields that follow each other without overlap are laid where they stand.
proof fn lemma_laid_places(row: Seq<RecordField>, i: int) -> (k: int)
    requires
        one_after_the_other(row),
        forall|j: int| 0 <= j < row.len() ==> (#[trigger] row[j]).0 >= 0,
        0 <= i < row.len(),
    ensures
        0 <= k < laid(row).0.len(),
        laid(row).0[k] == StructMemberView::value(row[i].2, row[i].1),
        total_size(laid(row).0.take(k)) == row[i].0,
    decreases row.len(),
{
    let shorter = row.drop_last();
    let last = row.len() - 1;
    assert forall|j: int, m: int| 0 <= j < m < shorter.len() implies (#[trigger] shorter[j]).0
        + field_size(shorter[j]) <= (#[trigger] shorter[m]).0 by {
        assert(row[j].0 + field_size(row[j]) <= row[m].0);
    }
    assert forall|j: int| 0 <= j < shorter.len() implies (#[trigger] shorter[j]).0 >= 0 by {
        assert(row[j].0 >= 0);
    }
    let (before, cursor) = laid(shorter);
    let members = laid(row).0;
    lemma_laid(shorter);
    if i < last {
        let k = lemma_laid_places(shorter, i);
        assert(members[k] == before[k]);
        assert(members.take(k) =~= before.take(k));
        k
    } else {
        lemma_laid_end(shorter);
        if shorter.len() > 0 {
            assert(row[last - 1].0 + field_size(row[last - 1]) <= row[last].0);
            assert(shorter.last() == row[last - 1]);
        } else {
            assert(laid(shorter).1 == 0);
        }
        assert(row[last].0 >= 0);
        let k = members.len() - 1;
        if row[last].0 > cursor {
            let pad = StructMemberView::padding((row[last].0 - cursor) as i64);
            assert(members.take(k) =~= before.push(pad));
            assert(before.push(pad).drop_last() =~= before);
            reveal_strlit("SKIP");
        } else {
            assert(members.take(k) =~= before);
        }
        k
    }
}

proof fn lemma_member_at(
    fields: Seq<RecordField>,
    layout: Seq<StructMember>,
    end: i64,
    i: int,
)
    requires
        layout_views(layout) == struct_of(fields, end),
        well_laid(fields),
        forall|j: int| 0 <= j < fields.len() ==> field_size(#[trigger] fields[j]) > 0,
        0 <= i < fields.len(),
    ensures
        member_at(layout, fields[i].1, fields[i].2, fields[i].0 as int),
{
    let row = by_offset(fields);
    lemma_sorted_apart(fields);
    lemma_by_offset(fields, |f: RecordField| true);
    assert forall|j: int| 0 <= j < row.len() implies (#[trigger] row[j]).0 >= 0 by {
        let n = choose|n: int| 0 <= n < fields.len() && fields[n] == row[j];
        assert(fields[n].0 >= 0);
    }
    assert(row.contains(fields[i]));
    let j = choose|j: int| 0 <= j < row.len() && row[j] == fields[i];
    let k = lemma_laid_places(row, j);
    let whole = layout_views(layout);
    assert(whole[k] == laid(row).0[k]);
    assert(whole.take(k) =~= laid(row).0.take(k));
    assert(layout[k]@ == whole[k]);
}

/// The player struct puts every member where the dump has its field, as long as
/// the fields do not overlap and the pointer to the player's object is the last.
pub proof fn the_struct_puts_every_member_where_its_field_is(src: Sources, o: Offsets)
    requires
        offsets_from(src, o),
        sums_fit(src),
        problems_of(src, plan(src)).len() == 0,
        well_laid(record_fields(src)),
    ensures
        member_at(
            o.player.struct_layout@,
            "id"@,
            "UINT"@,
            at(src.dump, "NetworkedPlayerInfo"@, "PlayerId"@),
        ),
        member_at(
            o.player.struct_layout@,
            "outfitsPtr"@,
            "UINT"@,
            at(src.dump, "NetworkedPlayerInfo"@, "Outfits"@),
        ),
        member_at(
            o.player.struct_layout@,
            "playerLevel"@,
            "UINT"@,
            at(src.dump, "NetworkedPlayerInfo"@, "PlayerLevel"@),
        ),
        member_at(
            o.player.struct_layout@,
            "disconnected"@,
            "UINT"@,
            at(src.dump, "NetworkedPlayerInfo"@, "Disconnected"@),
        ),
        member_at(
            o.player.struct_layout@,
            "rolePtr"@,
            "UINT"@,
            at(src.dump, "NetworkedPlayerInfo"@, "Role"@),
        ),
        member_at(
            o.player.struct_layout@,
            "taskPtr"@,
            "UINT"@,
            at(src.dump, "NetworkedPlayerInfo"@, "Tasks"@),
        ),
        member_at(
            o.player.struct_layout@,
            "dead"@,
            "BYTE"@,
            at(src.dump, "NetworkedPlayerInfo"@, "IsDead"@),
        ),
        member_at(
            o.player.struct_layout@,
            "objectPtr"@,
            "UINT"@,
            at(src.dump, "NetworkedPlayerInfo"@, "_object"@),
        ),
{
    reveal_strlit("SKIP");
    reveal_strlit("BYTE");
    reveal_strlit("UINT");
    a_run_succeeds_exactly_if_everything_is_there(src);
    let fields = record_fields(src);
    let end = buffer_length(src) as i64;
    assert("UINT"@[0] == 'U' && "SKIP"@[0] == 'S');
    assert("BYTE"@[0] == 'B');
    assert forall|i: int| 0 <= i < fields.len() implies field_size(#[trigger] fields[i]) > 0 by {
        assert(fields[i].2 == "UINT"@ || fields[i].2 == "BYTE"@);
    }
    lemma_one(src, "NetworkedPlayerInfo"@, "PlayerId"@);
    lemma_member_at(fields, o.player.struct_layout@, end, 0);
    lemma_one(src, "NetworkedPlayerInfo"@, "Outfits"@);
    lemma_member_at(fields, o.player.struct_layout@, end, 1);
    lemma_one(src, "NetworkedPlayerInfo"@, "PlayerLevel"@);
    lemma_member_at(fields, o.player.struct_layout@, end, 2);
    lemma_one(src, "NetworkedPlayerInfo"@, "Disconnected"@);
    lemma_member_at(fields, o.player.struct_layout@, end, 3);
    lemma_one(src, "NetworkedPlayerInfo"@, "Role"@);
    lemma_member_at(fields, o.player.struct_layout@, end, 4);
    lemma_one(src, "NetworkedPlayerInfo"@, "Tasks"@);
    lemma_member_at(fields, o.player.struct_layout@, end, 5);
    lemma_one(src, "NetworkedPlayerInfo"@, "IsDead"@);
    lemma_member_at(fields, o.player.struct_layout@, end, 6);
    lemma_one(src, "NetworkedPlayerInfo"@, "_object"@);
    lemma_member_at(fields, o.player.struct_layout@, end, 7);
}

/// That a field was found under its second name is noted if and only if the first
/// is gone.
pub proof fn a_second_name_is_noted(
    src: Sources,
    label: Seq<char>,
    class: Seq<char>,
    name: Seq<char>,
    other: Seq<char>,
)
    requires
        strip_suffix(class + "."@ + other, name) is None,
    ensures
        step_note(src, either(label, class, name, other)) is Some <==> !dump_has(src.dump, class, name)
            && dump_has(src.dump, class, other),
{
    lemma_two(src, class, name, other);
    assert(two(name, other)[0] == name);
    assert(two(name, other)[1] == other);
    reveal_with_fuel(candidate_from, 3);
    let which = class + "."@ + name;
    let n = which.len() - name.len();
    assert(which.subrange(n, n + name.len()) =~= name);
}

} // verus!
