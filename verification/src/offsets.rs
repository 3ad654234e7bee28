//! The `offsets.json` schema, in the order the client's `IOffsets` declares it.
//!
//! Field order is deliberate: the offsets repository is read as a git diff,
//! and keeping the generated file in the same shape as the hand-written ones
//! means a diff shows what actually changed instead of a reordering.

use vstd::prelude::*;

use crate::error::{agrees_in_view, Result};
use crate::json::{
    compact, file_text, finished_file, found_value, get, item_views, json_view, lemma_item_views,
    member, pretty, pretty_json, put, Json, JsonView, MembersView,
};
use crate::text::{chars_of, is_white, maybe_text, same_text, trim, trim_end, trimmed};

verus! {

/// Value written into chain slot 0 for anything the client resolves by
/// signature at runtime.
///
/// `GameReader.initializeoffsets` overwrites `meetingHud[0]`, `allPlayersPtr[0]`,
/// `shipStatus[0]`, `miniGame[0]`, `palette[0]`, `gameoptionsData[0]`,
/// `serverManager_currentServer[0]` and `innerNetClient.base[0]` with the result
/// of a pattern scan before reading anything, so whatever we put there is never
/// used. Emitting a fixed marker rather than the build's real RVA keeps those
/// eight lines out of every diff, which is what makes a version-to-version diff
/// worth reading. The real addresses go in the run report instead.
pub const SIGNATURE_RESOLVED: i64 = -1;

/// One entry of the `structron` layout the client builds for a player record.
#[derive(Debug, Clone, PartialEq, Eq)]
pub struct StructMember {
    /// `type`
    pub kind: String,
    /// `skip`, left out where there is none
    pub skip: Option<i64>,
    /// `name`
    pub name: String,
}

/// What a [`StructMember`] says.
pub struct StructMemberView {
    pub kind: Seq<char>,
    pub skip: Option<i64>,
    pub name: Seq<char>,
}

impl View for StructMember {
    type V = StructMemberView;

    open spec fn view(&self) -> StructMemberView {
        StructMemberView { kind: self.kind@, skip: self.skip, name: self.name@ }
    }
}

impl StructMemberView {
    pub open spec fn value(kind: Seq<char>, name: Seq<char>) -> StructMemberView {
        StructMemberView { kind, skip: None, name }
    }

    pub open spec fn padding(bytes: i64) -> StructMemberView {
        StructMemberView { kind: "SKIP"@, skip: Some(bytes), name: "unused"@ }
    }

    /// How many bytes of the record the member takes.
    pub open spec fn size(self) -> i64 {
        if self.kind == "SKIP"@ {
            match self.skip {
                Some(bytes) => bytes,
                None => 0,
            }
        } else if self.kind == "BYTE"@ || self.kind == "CHAR"@ {
            1
        } else if self.kind == "SHORT"@ || self.kind == "SHORT_BE"@ || self.kind == "USHORT"@
            || self.kind == "USHORT_BE"@ {
            2
        } else {
            4
        }
    }

    pub open spec fn json(self) -> JsonView {
        let kind = seq![("type"@, JsonView::Text(self.kind))];
        let skip = match self.skip {
            Some(bytes) => kind.push(("skip"@, JsonView::Integer(bytes))),
            None => kind,
        };
        JsonView::Object(skip.push(("name"@, JsonView::Text(self.name))))
    }
}

impl StructMember {
    pub fn value(kind: &str, name: &str) -> (r: Self)
        ensures
            r@ == StructMemberView::value(kind@, name@),
    {
        Self { kind: kind.to_owned(), skip: None, name: name.to_owned() }
    }

    pub fn padding(bytes: i64) -> (r: Self)
        ensures
            r@ == StructMemberView::padding(bytes),
    {
        Self { kind: "SKIP".to_owned(), skip: Some(bytes), name: "unused".to_owned() }
    }

    pub fn size(&self) -> (r: i64)
        ensures
            r == self@.size(),
    {
        let kind = self.kind.as_str();
        if same_text(kind, "SKIP") {
            match self.skip {
                Some(bytes) => bytes,
                None => 0,
            }
        } else if same_text(kind, "BYTE") || same_text(kind, "CHAR") {
            1
        } else if same_text(kind, "SHORT") || same_text(kind, "SHORT_BE") || same_text(
            kind,
            "USHORT",
        ) || same_text(kind, "USHORT_BE") {
            2
        } else {
            4
        }
    }

    /// The JSON object, without `skip` where there is none.
    pub fn to_json(&self) -> (r: Json)
        ensures
            r@ == self@.json(),
    {
        let mut members: Vec<(String, Json)> = Vec::new();
        put(&mut members, "type", Json::Text(self.kind.clone()));
        if let Some(bytes) = self.skip {
            put(&mut members, "skip", Json::Integer(bytes));
        }
        put(&mut members, "name", Json::Text(self.name.clone()));
        Json::Object(members)
    }
}

#[derive(Debug, Clone, PartialEq, Eq)]
pub struct Signature {
    /// `sig`, left out where there is none
    pub sig: Option<String>,
    /// `patternOffset`, left out where there is none
    pub pattern_offset: Option<i64>,
    /// `addressOffset`, left out where there is none
    pub address_offset: Option<i64>,
}

/// What a [`Signature`] says.
pub struct SigView {
    pub sig: Option<Seq<char>>,
    pub pattern_offset: Option<i64>,
    pub address_offset: Option<i64>,
}

impl View for Signature {
    type V = SigView;

    open spec fn view(&self) -> SigView {
        SigView {
            sig: match self.sig {
                Some(text) => Some(text@),
                None => None,
            },
            pattern_offset: self.pattern_offset,
            address_offset: self.address_offset,
        }
    }
}

/// A signature with nothing in it.
pub open spec fn no_signature() -> SigView {
    SigView { sig: None, pattern_offset: None, address_offset: None }
}

impl SigView {
    /// Whether there is a pattern that is not blank.
    pub open spec fn present(self) -> bool {
        match self.sig {
            Some(text) => trim(text).len() > 0,
            None => false,
        }
    }
}

/// An offset that may be left out.
pub open spec fn or_zero(n: Option<i64>) -> int {
    match n {
        Some(n) => n as int,
        None => 0,
    }
}

/// The JSON object, without what is not there.
pub open spec fn signature_json(s: SigView) -> JsonView {
    let none: MembersView = Seq::empty();
    let sig = match s.sig {
        Some(text) => none.push(("sig"@, JsonView::Text(text))),
        None => none,
    };
    let pattern_offset = match s.pattern_offset {
        Some(n) => sig.push(("patternOffset"@, JsonView::Integer(n))),
        None => sig,
    };
    JsonView::Object(
        match s.address_offset {
            Some(n) => pattern_offset.push(("addressOffset"@, JsonView::Integer(n))),
            None => pattern_offset,
        },
    )
}

/// A text that may be `null` or missing.
pub open spec fn text_or_none(value: Option<JsonView>) -> Option<Option<Seq<char>>> {
    match value {
        None => Some(None),
        Some(JsonView::Null) => Some(None),
        Some(JsonView::Text(text)) => Some(Some(text)),
        Some(_) => None,
    }
}

/// An integer that may be `null` or missing.
pub open spec fn integer_or_none(value: Option<JsonView>) -> Option<Option<i64>> {
    match value {
        None => Some(None),
        Some(JsonView::Null) => Some(None),
        Some(JsonView::Integer(n)) => Some(Some(n)),
        Some(_) => None,
    }
}

/// The signature that a value spells: an object, whatever else it has, or an
/// array of the three values.
pub open spec fn signature_of(value: JsonView) -> Option<SigView> {
    let parts = match value {
        JsonView::Object(m) => Some(
            (member(m, "sig"@), member(m, "patternOffset"@), member(m, "addressOffset"@)),
        ),
        JsonView::List(items) => if items.len() == 3 {
            Some((Some(items[0]), Some(items[1]), Some(items[2])))
        } else {
            None
        },
        _ => None,
    };
    match parts {
        Some((sig, pattern_offset, address_offset)) => match (
            text_or_none(sig),
            integer_or_none(pattern_offset),
            integer_or_none(address_offset),
        ) {
            (Some(sig), Some(pattern_offset), Some(address_offset)) => Some(
                SigView { sig, pattern_offset, address_offset },
            ),
            _ => None,
        },
        None => None,
    }
}

/// The view of an optional signature.
pub open spec fn maybe_signature(signature: Option<Signature>) -> Option<SigView> {
    match signature {
        Some(signature) => Some(signature@),
        None => None,
    }
}

fn read_text(value: Option<&Json>) -> (r: Option<Option<String>>)
    ensures
        text_or_none(found_value(value)) == (match r {
            Some(text) => Some(maybe_text(text)),
            None => None,
        }),
{
    match value {
        None => Some(None),
        Some(Json::Null) => Some(None),
        Some(Json::Text(text)) => Some(Some(text.clone())),
        Some(_) => None,
    }
}

fn read_integer(value: Option<&Json>) -> (r: Option<Option<i64>>)
    ensures
        r == integer_or_none(found_value(value)),
{
    match value {
        None => Some(None),
        Some(Json::Null) => Some(None),
        Some(Json::Integer(n)) => Some(Some(*n)),
        Some(_) => None,
    }
}

fn read_signature(
    sig: Option<&Json>,
    pattern_offset: Option<&Json>,
    address_offset: Option<&Json>,
) -> (r: Option<Signature>)
    ensures
        maybe_signature(r) == (match (
            text_or_none(found_value(sig)),
            integer_or_none(found_value(pattern_offset)),
            integer_or_none(found_value(address_offset)),
        ) {
            (Some(sig), Some(pattern_offset), Some(address_offset)) => Some(
                SigView { sig, pattern_offset, address_offset },
            ),
            _ => None,
        }),
{
    match (read_text(sig), read_integer(pattern_offset), read_integer(address_offset)) {
        (Some(sig), Some(pattern_offset), Some(address_offset)) => Some(
            Signature { sig, pattern_offset, address_offset },
        ),
        _ => None,
    }
}

impl Signature {
    /// The signature that a value spells.
    pub fn from_json(value: &Json) -> (r: Option<Signature>)
        ensures
            maybe_signature(r) == signature_of(value@),
    {
        match value {
            Json::Object(members) => read_signature(
                get(members, "sig"),
                get(members, "patternOffset"),
                get(members, "addressOffset"),
            ),
            Json::List(items) => {
                proof {
                    lemma_item_views(items@);
                }
                if items.len() != 3 {
                    return None;
                }
                read_signature(Some(&items[0]), Some(&items[1]), Some(&items[2]))
            },
            _ => None,
        }
    }

    pub fn is_present(&self) -> (r: bool)
        ensures
            r == self@.present(),
    {
        match &self.sig {
            Some(text) => {
                let chars: Vec<char> = chars_of(text.as_str());
                trimmed(chars.as_slice()).len() > 0
            },
            None => false,
        }
    }

    /// A signature that says the same.
    pub fn copy(&self) -> (r: Self)
        ensures
            r@ == self@,
    {
        Signature {
            sig: match &self.sig {
                Some(text) => Some(text.clone()),
                None => None,
            },
            pattern_offset: self.pattern_offset,
            address_offset: self.address_offset,
        }
    }

    /// The JSON object, without what is not there.
    pub fn to_json(&self) -> (r: Json)
        ensures
            r@ == signature_json(self@),
    {
        let mut members: Vec<(String, Json)> = Vec::new();
        if let Some(text) = &self.sig {
            put(&mut members, "sig", Json::Text(text.clone()));
        }
        if let Some(n) = self.pattern_offset {
            put(&mut members, "patternOffset", Json::Integer(n));
        }
        if let Some(n) = self.address_offset {
            put(&mut members, "addressOffset", Json::Integer(n));
        }
        Json::Object(members)
    }
}

impl Default for Signature {
    fn default() -> (r: Self)
        ensures
            r@ == no_signature(),
    {
        Signature { sig: None, pattern_offset: None, address_offset: None }
    }
}

impl Default for Signatures {
    fn default() -> (r: Self)
        ensures
            r.inner_net_client@ == no_signature(),
            r.meeting_hud@ == no_signature(),
            r.game_data@ == no_signature(),
            r.ship_status@ == no_signature(),
            r.mini_game@ == no_signature(),
            r.palette@ == no_signature(),
            r.player_control@ == no_signature(),
            r.show_mod_stamp@ == no_signature(),
            r.connect_func@ == no_signature(),
            r.fixed_update_func@ == no_signature(),
            r.ping_message_string@ == no_signature(),
            r.mod_late_update@ == no_signature(),
            r.server_manager@ == no_signature(),
            r.game_options_manager@ == no_signature(),
    {
        Signatures {
            inner_net_client: Signature::default(),
            meeting_hud: Signature::default(),
            game_data: Signature::default(),
            ship_status: Signature::default(),
            mini_game: Signature::default(),
            palette: Signature::default(),
            player_control: Signature::default(),
            show_mod_stamp: Signature::default(),
            connect_func: Signature::default(),
            fixed_update_func: Signature::default(),
            ping_message_string: Signature::default(),
            mod_late_update: Signature::default(),
            server_manager: Signature::default(),
            game_options_manager: Signature::default(),
        }
    }
}

/// An object with nothing in it.
pub open spec fn no_members() -> MembersView {
    Seq::empty()
}

/// A JSON array of numbers.
pub open spec fn numbers_json(numbers: Seq<i64>) -> JsonView {
    JsonView::List(numbers.map_values(|n: i64| JsonView::Integer(n)))
}

fn numbers(all: &Vec<i64>) -> (r: Json)
    ensures
        r@ == numbers_json(all@),
{
    let mut items: Vec<Json> = Vec::new();
    let ghost wanted = all@.map_values(|n: i64| JsonView::Integer(n));
    for i in 0..all.len()
        invariant
            wanted == all@.map_values(|n: i64| JsonView::Integer(n)),
            item_views(items@) == wanted.take(i as int),
    {
        let ghost before = items@;
        items.push(Json::Integer(all[i]));
        assert(items@.drop_last() =~= before);
        assert(json_view(items@.last()) == JsonView::Integer(all@[i as int]));
        assert(item_views(items@) =~= wanted.take(i + 1));
    }
    assert(wanted.take(wanted.len() as int) =~= wanted);
    Json::List(items)
}

/// What the members of a layout say.
pub open spec fn layout_views(members: Seq<StructMember>) -> Seq<StructMemberView> {
    members.map_values(|m: StructMember| m@)
}

/// The sizes of these members, added up.
pub open spec fn total_size(members: Seq<StructMemberView>) -> int
    decreases members.len(),
{
    if members.len() == 0 {
        0
    } else {
        total_size(members.drop_last()) + members.last().size()
    }
}

/// A JSON array of struct members.
pub open spec fn layout_json(members: Seq<StructMember>) -> JsonView {
    JsonView::List(layout_views(members).map_values(|m: StructMemberView| m.json()))
}

fn layout(all: &Vec<StructMember>) -> (r: Json)
    ensures
        r@ == layout_json(all@),
{
    let mut items: Vec<Json> = Vec::new();
    let ghost wanted = layout_views(all@).map_values(|m: StructMemberView| m.json());
    for i in 0..all.len()
        invariant
            wanted == layout_views(all@).map_values(|m: StructMemberView| m.json()),
            item_views(items@) == wanted.take(i as int),
    {
        let ghost before = items@;
        let member: Json = all[i].to_json();
        items.push(member);
        assert(items@.drop_last() =~= before);
        assert(json_view(items@.last()) == all@[i as int]@.json());
        assert(item_views(items@) =~= wanted.take(i + 1));
    }
    assert(wanted.take(wanted.len() as int) =~= wanted);
    Json::List(items)
}

/// The offsets the client reads, in the order its `IOffsets` declares them.
#[derive(Debug, Clone, PartialEq, Eq)]
pub struct Offsets {
    /// `meetingHud`
    pub meeting_hud: Vec<i64>,
    /// `objectCachePtr`
    pub object_cache_ptr: Vec<i64>,
    /// `meetingHudState`
    pub meeting_hud_state: Vec<i64>,
    /// `allPlayersPtr`
    pub all_players_ptr: Vec<i64>,
    /// `allPlayers`
    pub all_players: Vec<i64>,
    /// `playerCount`
    pub player_count: Vec<i64>,
    /// `playerAddrPtr`
    pub player_addr_ptr: i64,
    /// `shipStatus`
    pub ship_status: Vec<i64>,
    /// `shipStatus_systems`
    pub ship_status_systems: Vec<i64>,
    /// `shipStatus_map`
    pub ship_status_map: Vec<i64>,
    /// `shipstatus_allDoors`
    pub shipstatus_all_doors: Vec<i64>,
    /// `door_doorId`
    pub door_door_id: i64,
    /// `door_isOpen`
    pub door_is_open: i64,
    /// `deconDoorUpperOpen`
    pub decon_door_upper_open: Vec<i64>,
    /// `deconDoorLowerOpen`
    pub decon_door_lower_open: Vec<i64>,
    /// `hqHudSystemType_CompletedConsoles`
    pub hq_hud_completed_consoles: Vec<i64>,
    /// `HudOverrideSystemType_isActive`
    pub hud_override_is_active: Vec<i64>,
    /// `miniGame`
    pub mini_game: Vec<i64>,
    /// `planetSurveillanceMinigame_currentCamera`
    pub planet_surveillance_current_camera: Vec<i64>,
    /// `planetSurveillanceMinigame_camarasCount`
    pub planet_surveillance_camaras_count: Vec<i64>,
    /// `surveillanceMinigame_FilteredRoomsCount`
    pub surveillance_filtered_rooms_count: Vec<i64>,
    /// `lightRadius`
    pub light_radius: Vec<i64>,
    /// `palette`
    pub palette: Vec<i64>,
    /// `palette_playercolor`
    pub palette_playercolor: Vec<i64>,
    /// `palette_shadowColor`
    pub palette_shadow_color: Vec<i64>,
    /// `playerControl_GameOptions`
    pub player_control_game_options: Vec<i64>,
    /// `gameoptionsData`
    pub gameoptions_data: Vec<i64>,
    /// `gameOptions_MapId`
    pub game_options_map_id: Vec<i64>,
    /// `gameOptions_MaxPLayers`
    pub game_options_max_players: Vec<i64>,
    /// `serverManager_currentServer`
    pub server_manager_current_server: Vec<i64>,
    /// `connectFunc`
    pub connect_func: i64,
    /// `showModStampFunc`
    pub show_mod_stamp_func: i64,
    /// `modLateUpdateFunc`
    pub mod_late_update_func: i64,
    /// `fixedUpdateFunc`
    pub fixed_update_func: i64,
    /// `pingMessageString`
    pub ping_message_string: i64,
    /// `innerNetClient`
    pub inner_net_client: InnerNetClient,
    /// `player`
    pub player: Player,
    /// `signatures`
    pub signatures: Signatures,
    /// `oldMeetingHud`
    pub old_meeting_hud: bool,
    /// `disableWriting`
    pub disable_writing: bool,
    /// `newGameOptions`
    pub new_game_options: bool,
}

impl Offsets {
    /// The JSON object, with the keys in this order.
    pub open spec fn json(self) -> JsonView {
        JsonView::Object(
            no_members()
                .push(("meetingHud"@, numbers_json(self.meeting_hud@)))
                .push(("objectCachePtr"@, numbers_json(self.object_cache_ptr@)))
                .push(("meetingHudState"@, numbers_json(self.meeting_hud_state@)))
                .push(("allPlayersPtr"@, numbers_json(self.all_players_ptr@)))
                .push(("allPlayers"@, numbers_json(self.all_players@)))
                .push(("playerCount"@, numbers_json(self.player_count@)))
                .push(("playerAddrPtr"@, JsonView::Integer(self.player_addr_ptr)))
                .push(("shipStatus"@, numbers_json(self.ship_status@)))
                .push(("shipStatus_systems"@, numbers_json(self.ship_status_systems@)))
                .push(("shipStatus_map"@, numbers_json(self.ship_status_map@)))
                .push(("shipstatus_allDoors"@, numbers_json(self.shipstatus_all_doors@)))
                .push(("door_doorId"@, JsonView::Integer(self.door_door_id)))
                .push(("door_isOpen"@, JsonView::Integer(self.door_is_open)))
                .push(("deconDoorUpperOpen"@, numbers_json(self.decon_door_upper_open@)))
                .push(("deconDoorLowerOpen"@, numbers_json(self.decon_door_lower_open@)))
                .push(("hqHudSystemType_CompletedConsoles"@, numbers_json(self.hq_hud_completed_consoles@)))
                .push(("HudOverrideSystemType_isActive"@, numbers_json(self.hud_override_is_active@)))
                .push(("miniGame"@, numbers_json(self.mini_game@)))
                .push(("planetSurveillanceMinigame_currentCamera"@, numbers_json(self.planet_surveillance_current_camera@)))
                .push(("planetSurveillanceMinigame_camarasCount"@, numbers_json(self.planet_surveillance_camaras_count@)))
                .push(("surveillanceMinigame_FilteredRoomsCount"@, numbers_json(self.surveillance_filtered_rooms_count@)))
                .push(("lightRadius"@, numbers_json(self.light_radius@)))
                .push(("palette"@, numbers_json(self.palette@)))
                .push(("palette_playercolor"@, numbers_json(self.palette_playercolor@)))
                .push(("palette_shadowColor"@, numbers_json(self.palette_shadow_color@)))
                .push(("playerControl_GameOptions"@, numbers_json(self.player_control_game_options@)))
                .push(("gameoptionsData"@, numbers_json(self.gameoptions_data@)))
                .push(("gameOptions_MapId"@, numbers_json(self.game_options_map_id@)))
                .push(("gameOptions_MaxPLayers"@, numbers_json(self.game_options_max_players@)))
                .push(("serverManager_currentServer"@, numbers_json(self.server_manager_current_server@)))
                .push(("connectFunc"@, JsonView::Integer(self.connect_func)))
                .push(("showModStampFunc"@, JsonView::Integer(self.show_mod_stamp_func)))
                .push(("modLateUpdateFunc"@, JsonView::Integer(self.mod_late_update_func)))
                .push(("fixedUpdateFunc"@, JsonView::Integer(self.fixed_update_func)))
                .push(("pingMessageString"@, JsonView::Integer(self.ping_message_string)))
                .push(("innerNetClient"@, self.inner_net_client.json()))
                .push(("player"@, self.player.json()))
                .push(("signatures"@, self.signatures.json()))
                .push(("oldMeetingHud"@, JsonView::Bool(self.old_meeting_hud)))
                .push(("disableWriting"@, JsonView::Bool(self.disable_writing)))
                .push(("newGameOptions"@, JsonView::Bool(self.new_game_options))),
        )
    }

    /// The JSON object, with the keys in this order.
    pub fn to_json(&self) -> (r: Json)
        ensures
            r@ == self.json(),
    {
        let mut members: Vec<(String, Json)> = Vec::new();
        put(&mut members, "meetingHud", numbers(&self.meeting_hud));
        put(&mut members, "objectCachePtr", numbers(&self.object_cache_ptr));
        put(&mut members, "meetingHudState", numbers(&self.meeting_hud_state));
        put(&mut members, "allPlayersPtr", numbers(&self.all_players_ptr));
        put(&mut members, "allPlayers", numbers(&self.all_players));
        put(&mut members, "playerCount", numbers(&self.player_count));
        put(&mut members, "playerAddrPtr", Json::Integer(self.player_addr_ptr));
        put(&mut members, "shipStatus", numbers(&self.ship_status));
        put(&mut members, "shipStatus_systems", numbers(&self.ship_status_systems));
        put(&mut members, "shipStatus_map", numbers(&self.ship_status_map));
        put(&mut members, "shipstatus_allDoors", numbers(&self.shipstatus_all_doors));
        put(&mut members, "door_doorId", Json::Integer(self.door_door_id));
        put(&mut members, "door_isOpen", Json::Integer(self.door_is_open));
        put(&mut members, "deconDoorUpperOpen", numbers(&self.decon_door_upper_open));
        put(&mut members, "deconDoorLowerOpen", numbers(&self.decon_door_lower_open));
        put(&mut members, "hqHudSystemType_CompletedConsoles", numbers(&self.hq_hud_completed_consoles));
        put(&mut members, "HudOverrideSystemType_isActive", numbers(&self.hud_override_is_active));
        put(&mut members, "miniGame", numbers(&self.mini_game));
        put(&mut members, "planetSurveillanceMinigame_currentCamera", numbers(&self.planet_surveillance_current_camera));
        put(&mut members, "planetSurveillanceMinigame_camarasCount", numbers(&self.planet_surveillance_camaras_count));
        put(&mut members, "surveillanceMinigame_FilteredRoomsCount", numbers(&self.surveillance_filtered_rooms_count));
        put(&mut members, "lightRadius", numbers(&self.light_radius));
        put(&mut members, "palette", numbers(&self.palette));
        put(&mut members, "palette_playercolor", numbers(&self.palette_playercolor));
        put(&mut members, "palette_shadowColor", numbers(&self.palette_shadow_color));
        put(&mut members, "playerControl_GameOptions", numbers(&self.player_control_game_options));
        put(&mut members, "gameoptionsData", numbers(&self.gameoptions_data));
        put(&mut members, "gameOptions_MapId", numbers(&self.game_options_map_id));
        put(&mut members, "gameOptions_MaxPLayers", numbers(&self.game_options_max_players));
        put(&mut members, "serverManager_currentServer", numbers(&self.server_manager_current_server));
        put(&mut members, "connectFunc", Json::Integer(self.connect_func));
        put(&mut members, "showModStampFunc", Json::Integer(self.show_mod_stamp_func));
        put(&mut members, "modLateUpdateFunc", Json::Integer(self.mod_late_update_func));
        put(&mut members, "fixedUpdateFunc", Json::Integer(self.fixed_update_func));
        put(&mut members, "pingMessageString", Json::Integer(self.ping_message_string));
        put(&mut members, "innerNetClient", self.inner_net_client.to_json());
        put(&mut members, "player", self.player.to_json());
        put(&mut members, "signatures", self.signatures.to_json());
        put(&mut members, "oldMeetingHud", Json::Bool(self.old_meeting_hud));
        put(&mut members, "disableWriting", Json::Bool(self.disable_writing));
        put(&mut members, "newGameOptions", Json::Bool(self.new_game_options));
        Json::Object(members)
    }
}

#[derive(Debug, Clone, PartialEq, Eq)]
pub struct InnerNetClient {
    /// `base`
    pub base: Vec<i64>,
    /// `networkAddress`
    pub network_address: i64,
    /// `networkPort`
    pub network_port: i64,
    /// `gameMode`
    pub game_mode: i64,
    /// `gameId`
    pub game_id: i64,
    /// `hostId`
    pub host_id: i64,
    /// `clientId`
    pub client_id: i64,
    /// `gameState`
    pub game_state: i64,
    /// `onlineScene`
    pub online_scene: i64,
    /// `mainMenuScene`
    pub main_menu_scene: i64,
}

impl InnerNetClient {
    /// The JSON object, with the keys in this order.
    pub open spec fn json(self) -> JsonView {
        JsonView::Object(
            no_members()
                .push(("base"@, numbers_json(self.base@)))
                .push(("networkAddress"@, JsonView::Integer(self.network_address)))
                .push(("networkPort"@, JsonView::Integer(self.network_port)))
                .push(("gameMode"@, JsonView::Integer(self.game_mode)))
                .push(("gameId"@, JsonView::Integer(self.game_id)))
                .push(("hostId"@, JsonView::Integer(self.host_id)))
                .push(("clientId"@, JsonView::Integer(self.client_id)))
                .push(("gameState"@, JsonView::Integer(self.game_state)))
                .push(("onlineScene"@, JsonView::Integer(self.online_scene)))
                .push(("mainMenuScene"@, JsonView::Integer(self.main_menu_scene))),
        )
    }

    /// The JSON object, with the keys in this order.
    pub fn to_json(&self) -> (r: Json)
        ensures
            r@ == self.json(),
    {
        let mut members: Vec<(String, Json)> = Vec::new();
        put(&mut members, "base", numbers(&self.base));
        put(&mut members, "networkAddress", Json::Integer(self.network_address));
        put(&mut members, "networkPort", Json::Integer(self.network_port));
        put(&mut members, "gameMode", Json::Integer(self.game_mode));
        put(&mut members, "gameId", Json::Integer(self.game_id));
        put(&mut members, "hostId", Json::Integer(self.host_id));
        put(&mut members, "clientId", Json::Integer(self.client_id));
        put(&mut members, "gameState", Json::Integer(self.game_state));
        put(&mut members, "onlineScene", Json::Integer(self.online_scene));
        put(&mut members, "mainMenuScene", Json::Integer(self.main_menu_scene));
        Json::Object(members)
    }
}

#[derive(Debug, Clone, PartialEq, Eq)]
pub struct Player {
    /// `struct`
    pub struct_layout: Vec<StructMember>,
    /// `isDummy`
    pub is_dummy: Vec<i64>,
    /// `isLocal`
    pub is_local: Vec<i64>,
    /// `localX`
    pub local_x: Vec<i64>,
    /// `localY`
    pub local_y: Vec<i64>,
    /// `remoteX`
    pub remote_x: Vec<i64>,
    /// `remoteY`
    pub remote_y: Vec<i64>,
    /// `bufferLength`
    pub buffer_length: i64,
    /// `offsets`
    pub offsets: Vec<i64>,
    /// `inVent`
    pub in_vent: Vec<i64>,
    /// `clientId`
    pub client_id: Vec<i64>,
    /// `currentOutfit`
    pub current_outfit: Vec<i64>,
    /// `roleTeam`
    pub role_team: Vec<i64>,
    /// `nameText`
    pub name_text: Vec<i64>,
    /// `outfit`
    pub outfit: Outfit,
}

impl Player {
    /// The JSON object, with the keys in this order.
    pub open spec fn json(self) -> JsonView {
        JsonView::Object(
            no_members()
                .push(("struct"@, layout_json(self.struct_layout@)))
                .push(("isDummy"@, numbers_json(self.is_dummy@)))
                .push(("isLocal"@, numbers_json(self.is_local@)))
                .push(("localX"@, numbers_json(self.local_x@)))
                .push(("localY"@, numbers_json(self.local_y@)))
                .push(("remoteX"@, numbers_json(self.remote_x@)))
                .push(("remoteY"@, numbers_json(self.remote_y@)))
                .push(("bufferLength"@, JsonView::Integer(self.buffer_length)))
                .push(("offsets"@, numbers_json(self.offsets@)))
                .push(("inVent"@, numbers_json(self.in_vent@)))
                .push(("clientId"@, numbers_json(self.client_id@)))
                .push(("currentOutfit"@, numbers_json(self.current_outfit@)))
                .push(("roleTeam"@, numbers_json(self.role_team@)))
                .push(("nameText"@, numbers_json(self.name_text@)))
                .push(("outfit"@, self.outfit.json())),
        )
    }

    /// The JSON object, with the keys in this order.
    pub fn to_json(&self) -> (r: Json)
        ensures
            r@ == self.json(),
    {
        let mut members: Vec<(String, Json)> = Vec::new();
        put(&mut members, "struct", layout(&self.struct_layout));
        put(&mut members, "isDummy", numbers(&self.is_dummy));
        put(&mut members, "isLocal", numbers(&self.is_local));
        put(&mut members, "localX", numbers(&self.local_x));
        put(&mut members, "localY", numbers(&self.local_y));
        put(&mut members, "remoteX", numbers(&self.remote_x));
        put(&mut members, "remoteY", numbers(&self.remote_y));
        put(&mut members, "bufferLength", Json::Integer(self.buffer_length));
        put(&mut members, "offsets", numbers(&self.offsets));
        put(&mut members, "inVent", numbers(&self.in_vent));
        put(&mut members, "clientId", numbers(&self.client_id));
        put(&mut members, "currentOutfit", numbers(&self.current_outfit));
        put(&mut members, "roleTeam", numbers(&self.role_team));
        put(&mut members, "nameText", numbers(&self.name_text));
        put(&mut members, "outfit", self.outfit.to_json());
        Json::Object(members)
    }
}

#[derive(Debug, Clone, PartialEq, Eq)]
pub struct Outfit {
    /// `colorId`
    pub color_id: Vec<i64>,
    /// `hatId`
    pub hat_id: Vec<i64>,
    /// `skinId`
    pub skin_id: Vec<i64>,
    /// `visorId`
    pub visor_id: Vec<i64>,
    /// `playerName`
    pub player_name: Vec<i64>,
}

impl Outfit {
    /// The JSON object, with the keys in this order.
    pub open spec fn json(self) -> JsonView {
        JsonView::Object(
            no_members()
                .push(("colorId"@, numbers_json(self.color_id@)))
                .push(("hatId"@, numbers_json(self.hat_id@)))
                .push(("skinId"@, numbers_json(self.skin_id@)))
                .push(("visorId"@, numbers_json(self.visor_id@)))
                .push(("playerName"@, numbers_json(self.player_name@))),
        )
    }

    /// The JSON object, with the keys in this order.
    pub fn to_json(&self) -> (r: Json)
        ensures
            r@ == self.json(),
    {
        let mut members: Vec<(String, Json)> = Vec::new();
        put(&mut members, "colorId", numbers(&self.color_id));
        put(&mut members, "hatId", numbers(&self.hat_id));
        put(&mut members, "skinId", numbers(&self.skin_id));
        put(&mut members, "visorId", numbers(&self.visor_id));
        put(&mut members, "playerName", numbers(&self.player_name));
        Json::Object(members)
    }
}

#[derive(Debug, Clone, PartialEq, Eq)]
pub struct Signatures {
    /// `innerNetClient`
    pub inner_net_client: Signature,
    /// `meetingHud`
    pub meeting_hud: Signature,
    /// `gameData`
    pub game_data: Signature,
    /// `shipStatus`
    pub ship_status: Signature,
    /// `miniGame`
    pub mini_game: Signature,
    /// `palette`
    pub palette: Signature,
    /// `playerControl`
    pub player_control: Signature,
    /// `showModStamp`
    pub show_mod_stamp: Signature,
    /// `connectFunc`
    pub connect_func: Signature,
    /// `fixedUpdateFunc`
    pub fixed_update_func: Signature,
    /// `pingMessageString`
    pub ping_message_string: Signature,
    /// `modLateUpdate`
    pub mod_late_update: Signature,
    /// `serverManager`
    pub server_manager: Signature,
    /// `gameOptionsManager`
    pub game_options_manager: Signature,
}

impl Signatures {
    /// The JSON object, with the keys in this order.
    pub open spec fn json(self) -> JsonView {
        JsonView::Object(
            no_members()
                .push(("innerNetClient"@, signature_json(self.inner_net_client@)))
                .push(("meetingHud"@, signature_json(self.meeting_hud@)))
                .push(("gameData"@, signature_json(self.game_data@)))
                .push(("shipStatus"@, signature_json(self.ship_status@)))
                .push(("miniGame"@, signature_json(self.mini_game@)))
                .push(("palette"@, signature_json(self.palette@)))
                .push(("playerControl"@, signature_json(self.player_control@)))
                .push(("showModStamp"@, signature_json(self.show_mod_stamp@)))
                .push(("connectFunc"@, signature_json(self.connect_func@)))
                .push(("fixedUpdateFunc"@, signature_json(self.fixed_update_func@)))
                .push(("pingMessageString"@, signature_json(self.ping_message_string@)))
                .push(("modLateUpdate"@, signature_json(self.mod_late_update@)))
                .push(("serverManager"@, signature_json(self.server_manager@)))
                .push(("gameOptionsManager"@, signature_json(self.game_options_manager@))),
        )
    }

    /// The JSON object, with the keys in this order.
    pub fn to_json(&self) -> (r: Json)
        ensures
            r@ == self.json(),
    {
        let mut members: Vec<(String, Json)> = Vec::new();
        put(&mut members, "innerNetClient", self.inner_net_client.to_json());
        put(&mut members, "meetingHud", self.meeting_hud.to_json());
        put(&mut members, "gameData", self.game_data.to_json());
        put(&mut members, "shipStatus", self.ship_status.to_json());
        put(&mut members, "miniGame", self.mini_game.to_json());
        put(&mut members, "palette", self.palette.to_json());
        put(&mut members, "playerControl", self.player_control.to_json());
        put(&mut members, "showModStamp", self.show_mod_stamp.to_json());
        put(&mut members, "connectFunc", self.connect_func.to_json());
        put(&mut members, "fixedUpdateFunc", self.fixed_update_func.to_json());
        put(&mut members, "pingMessageString", self.ping_message_string.to_json());
        put(&mut members, "modLateUpdate", self.mod_late_update.to_json());
        put(&mut members, "serverManager", self.server_manager.to_json());
        put(&mut members, "gameOptionsManager", self.game_options_manager.to_json());
        Json::Object(members)
    }
}

impl Offsets {
    /// Whether two of them are equal, field by field.
    pub open spec fn says_same(self, other: Offsets) -> bool {
        &&& self.meeting_hud@ == other.meeting_hud@
        &&& self.object_cache_ptr@ == other.object_cache_ptr@
        &&& self.meeting_hud_state@ == other.meeting_hud_state@
        &&& self.all_players_ptr@ == other.all_players_ptr@
        &&& self.all_players@ == other.all_players@
        &&& self.player_count@ == other.player_count@
        &&& self.player_addr_ptr == other.player_addr_ptr
        &&& self.ship_status@ == other.ship_status@
        &&& self.ship_status_systems@ == other.ship_status_systems@
        &&& self.ship_status_map@ == other.ship_status_map@
        &&& self.shipstatus_all_doors@ == other.shipstatus_all_doors@
        &&& self.door_door_id == other.door_door_id
        &&& self.door_is_open == other.door_is_open
        &&& self.decon_door_upper_open@ == other.decon_door_upper_open@
        &&& self.decon_door_lower_open@ == other.decon_door_lower_open@
        &&& self.hq_hud_completed_consoles@ == other.hq_hud_completed_consoles@
        &&& self.hud_override_is_active@ == other.hud_override_is_active@
        &&& self.mini_game@ == other.mini_game@
        &&& self.planet_surveillance_current_camera@ == other.planet_surveillance_current_camera@
        &&& self.planet_surveillance_camaras_count@ == other.planet_surveillance_camaras_count@
        &&& self.surveillance_filtered_rooms_count@ == other.surveillance_filtered_rooms_count@
        &&& self.light_radius@ == other.light_radius@
        &&& self.palette@ == other.palette@
        &&& self.palette_playercolor@ == other.palette_playercolor@
        &&& self.palette_shadow_color@ == other.palette_shadow_color@
        &&& self.player_control_game_options@ == other.player_control_game_options@
        &&& self.gameoptions_data@ == other.gameoptions_data@
        &&& self.game_options_map_id@ == other.game_options_map_id@
        &&& self.game_options_max_players@ == other.game_options_max_players@
        &&& self.server_manager_current_server@ == other.server_manager_current_server@
        &&& self.connect_func == other.connect_func
        &&& self.show_mod_stamp_func == other.show_mod_stamp_func
        &&& self.mod_late_update_func == other.mod_late_update_func
        &&& self.fixed_update_func == other.fixed_update_func
        &&& self.ping_message_string == other.ping_message_string
        &&& self.inner_net_client.says_same(other.inner_net_client)
        &&& self.player.says_same(other.player)
        &&& self.signatures.says_same(other.signatures)
        &&& self.old_meeting_hud == other.old_meeting_hud
        &&& self.disable_writing == other.disable_writing
        &&& self.new_game_options == other.new_game_options
    }
}

impl InnerNetClient {
    /// Whether two of them are equal, field by field.
    pub open spec fn says_same(self, other: InnerNetClient) -> bool {
        &&& self.base@ == other.base@
        &&& self.network_address == other.network_address
        &&& self.network_port == other.network_port
        &&& self.game_mode == other.game_mode
        &&& self.game_id == other.game_id
        &&& self.host_id == other.host_id
        &&& self.client_id == other.client_id
        &&& self.game_state == other.game_state
        &&& self.online_scene == other.online_scene
        &&& self.main_menu_scene == other.main_menu_scene
    }
}

impl Player {
    /// Whether two of them are equal, field by field.
    pub open spec fn says_same(self, other: Player) -> bool {
        &&& layout_views(self.struct_layout@) == layout_views(other.struct_layout@)
        &&& self.is_dummy@ == other.is_dummy@
        &&& self.is_local@ == other.is_local@
        &&& self.local_x@ == other.local_x@
        &&& self.local_y@ == other.local_y@
        &&& self.remote_x@ == other.remote_x@
        &&& self.remote_y@ == other.remote_y@
        &&& self.buffer_length == other.buffer_length
        &&& self.offsets@ == other.offsets@
        &&& self.in_vent@ == other.in_vent@
        &&& self.client_id@ == other.client_id@
        &&& self.current_outfit@ == other.current_outfit@
        &&& self.role_team@ == other.role_team@
        &&& self.name_text@ == other.name_text@
        &&& self.outfit.says_same(other.outfit)
    }
}

impl Outfit {
    /// Whether two of them are equal, field by field.
    pub open spec fn says_same(self, other: Outfit) -> bool {
        &&& self.color_id@ == other.color_id@
        &&& self.hat_id@ == other.hat_id@
        &&& self.skin_id@ == other.skin_id@
        &&& self.visor_id@ == other.visor_id@
        &&& self.player_name@ == other.player_name@
    }
}

impl Signatures {
    /// Whether two of them are equal, field by field.
    pub open spec fn says_same(self, other: Signatures) -> bool {
        &&& self.inner_net_client@ == other.inner_net_client@
        &&& self.meeting_hud@ == other.meeting_hud@
        &&& self.game_data@ == other.game_data@
        &&& self.ship_status@ == other.ship_status@
        &&& self.mini_game@ == other.mini_game@
        &&& self.palette@ == other.palette@
        &&& self.player_control@ == other.player_control@
        &&& self.show_mod_stamp@ == other.show_mod_stamp@
        &&& self.connect_func@ == other.connect_func@
        &&& self.fixed_update_func@ == other.fixed_update_func@
        &&& self.ping_message_string@ == other.ping_message_string@
        &&& self.mod_late_update@ == other.mod_late_update@
        &&& self.server_manager@ == other.server_manager@
        &&& self.game_options_manager@ == other.game_options_manager@
    }
}

/// Every static chain whose first element the client replaces at runtime, with
/// its name and the signature that replaces it.
pub open spec fn backed_chains(offsets: Offsets) -> Seq<(Seq<char>, Seq<i64>, SigView)> {
    seq![
        ("meetingHud"@, offsets.meeting_hud@, offsets.signatures.meeting_hud@),
        ("allPlayersPtr"@, offsets.all_players_ptr@, offsets.signatures.game_data@),
        ("shipStatus"@, offsets.ship_status@, offsets.signatures.ship_status@),
        ("miniGame"@, offsets.mini_game@, offsets.signatures.mini_game@),
        ("palette"@, offsets.palette@, offsets.signatures.palette@),
        ("gameoptionsData"@, offsets.gameoptions_data@, offsets.signatures.game_options_manager@),
        (
            "serverManager_currentServer"@,
            offsets.server_manager_current_server@,
            offsets.signatures.server_manager@,
        ),
        (
            "innerNetClient.base"@,
            offsets.inner_net_client.base@,
            offsets.signatures.inner_net_client@,
        ),
    ]
}

/// What the chains in a list say.
pub open spec fn chain_views(chains: Seq<(&str, &Vec<i64>, &Signature)>) -> Seq<
    (Seq<char>, Seq<i64>, SigView),
> {
    chains.map_values(|c: (&str, &Vec<i64>, &Signature)| (c.0@, c.1@, c.2@))
}

impl Offsets {
    /// Every static chain whose first element the client replaces at runtime,
    /// paired with the signature that replaces it. Used by validation so the
    /// two can never drift apart.
    pub fn signature_backed_chains(&self) -> (r: Vec<(&'static str, &Vec<i64>, &Signature)>)
        ensures
            chain_views(r@) == backed_chains(*self),
    {
        let mut chains: Vec<(&'static str, &Vec<i64>, &Signature)> = Vec::new();
        chains.push(("meetingHud", &self.meeting_hud, &self.signatures.meeting_hud));
        chains.push(("allPlayersPtr", &self.all_players_ptr, &self.signatures.game_data));
        chains.push(("shipStatus", &self.ship_status, &self.signatures.ship_status));
        chains.push(("miniGame", &self.mini_game, &self.signatures.mini_game));
        chains.push(("palette", &self.palette, &self.signatures.palette));
        chains.push(
            ("gameoptionsData", &self.gameoptions_data, &self.signatures.game_options_manager),
        );
        chains.push(
            (
                "serverManager_currentServer",
                &self.server_manager_current_server,
                &self.signatures.server_manager,
            ),
        );
        chains.push(
            (
                "innerNetClient.base",
                &self.inner_net_client.base,
                &self.signatures.inner_net_client,
            ),
        );
        assert(chain_views(chains@) =~= backed_chains(*self));
        chains
    }
}

/// The text of an offsets file: two-space indent with a trailing newline,
/// matching the hand-written files.
pub fn render_offsets(offsets: &Offsets) -> (r: Result<String>)
    ensures
        agrees_in_view(r, file_text("offsets.json"@, pretty_json(compact(offsets.json())))),
{
    finished_file("offsets.json", pretty(&offsets.to_json()))
}

/// A padding takes the bytes it says; of the other kinds the bytes take one each,
/// the short numbers two, and all others four.
pub proof fn members_take_the_bytes_of_their_kind(kind: Seq<char>, name: Seq<char>, bytes: i64)
    ensures
        StructMemberView::padding(bytes).size() == bytes,
        kind == "BYTE"@ || kind == "CHAR"@ ==> StructMemberView::value(kind, name).size() == 1,
        kind == "SHORT"@ || kind == "SHORT_BE"@ || kind == "USHORT"@ || kind == "USHORT_BE"@
            ==> StructMemberView::value(kind, name).size() == 2,
        !(kind == "SKIP"@ || kind == "BYTE"@ || kind == "CHAR"@ || kind == "SHORT"@ || kind
            == "SHORT_BE"@ || kind == "USHORT"@ || kind == "USHORT_BE"@) ==> StructMemberView::value(
            kind,
            name,
        ).size() == 4,
{
    reveal_strlit("SKIP");
    reveal_strlit("BYTE");
    reveal_strlit("CHAR");
    reveal_strlit("SHORT");
    reveal_strlit("SHORT_BE");
    reveal_strlit("USHORT");
    reveal_strlit("USHORT_BE");
    assert("SKIP"@[0] == 'S' && "SKIP"@.len() == 4);
    assert("BYTE"@[0] == 'B');
    assert("CHAR"@[0] == 'C');
    assert("SHORT"@.len() == 5);
    assert("SHORT_BE"@.len() == 8);
    assert("USHORT"@.len() == 6);
    assert("USHORT_BE"@.len() == 9);
}

/// The sizes of members add up, one after the other.
pub proof fn sizes_add_up(a: Seq<StructMemberView>, b: Seq<StructMemberView>, one: StructMemberView)
    ensures
        total_size(Seq::empty()) == 0,
        total_size(a.push(one)) == total_size(a) + one.size(),
        total_size(a + b) == total_size(a) + total_size(b),
    decreases b.len(),
{
    assert(a.push(one).drop_last() =~= a);
    if b.len() > 0 {
        sizes_add_up(a, b.drop_last(), one);
        assert((a + b).drop_last() =~= a + b.drop_last());
        assert((a + b).last() == b.last());
    } else {
        assert(a + b =~= a);
    }
}

/// A signature is there if and only if its pattern has something in it that is no
/// white space.
pub proof fn a_blank_signature_is_none(signature: SigView)
    ensures
        signature.present() <==> (signature.sig matches Some(text) && exists|i: int|
            0 <= i < text.len() && !is_white(#[trigger] text[i])),
{
    if let Some(text) = signature.sig {
        lemma_blank(text);
    }
}

proof fn lemma_blank(text: Seq<char>)
    ensures
        trim(text).len() > 0 <==> exists|i: int|
            0 <= i < text.len() && !is_white(#[trigger] text[i]),
    decreases text.len(),
{
    if text.len() > 0 && is_white(text[0]) {
        let rest = text.skip(1);
        lemma_blank(rest);
        if exists|i: int| 0 <= i < text.len() && !is_white(#[trigger] text[i]) {
            let i = choose|i: int| 0 <= i < text.len() && !is_white(#[trigger] text[i]);
            assert(!is_white(rest[i - 1]));
        }
        if exists|i: int| 0 <= i < rest.len() && !is_white(#[trigger] rest[i]) {
            let i = choose|i: int| 0 <= i < rest.len() && !is_white(#[trigger] rest[i]);
            assert(!is_white(text[i + 1]));
        }
    } else if text.len() > 0 {
        assert(!is_white(text[0]));
        lemma_trim_end_keeps_first(text);
    }
}

proof fn lemma_trim_end_keeps_first(text: Seq<char>)
    requires
        text.len() > 0,
        !is_white(text[0]),
    ensures
        trim_end(text).len() > 0,
    decreases text.len(),
{
    if is_white(text.last()) {
        assert(text.len() > 1);
        assert(text.drop_last()[0] == text[0]);
        lemma_trim_end_keeps_first(text.drop_last());
    }
}

} // verus!
