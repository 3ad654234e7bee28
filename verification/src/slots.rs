//! Slot 0 of a chain that the client resolves by signature is not checked: the
//! client overwrites it before it reads anything, so its value carries no meaning.

use vstd::prelude::*;

use crate::json::{JsonView, MembersView};
use crate::numbers::{decimal, digit};
use crate::offsets::{
    backed_chains, layout_json, layout_views, no_members, numbers_json, InnerNetClient, Offsets,
    Player, SigView, Signatures,
};
use crate::pe::ImageView;
use crate::validate::{
    all_problems, check_count, file_leaves, item_leaves, item_path, leaf_problem, leaf_problems,
    leaves, member_leaves, member_path, replaced_slot, shape, structural, write_warnings, Leaf,
};

verus! {

/// Two chains are of one length and have the same numbers behind slot 0.
pub open spec fn same_behind_slot(x: Seq<i64>, y: Seq<i64>) -> bool {
    x.len() == y.len() && forall|i: int| 1 <= i < x.len() ==> x[i] == #[trigger] y[i]
}

/// Two files are equal, field by field, but for slot 0 of the chains whose first
/// element the client replaces.
pub open spec fn same_but_for_slots(a: Offsets, b: Offsets) -> bool {
    &&& same_behind_slot(a.meeting_hud@, b.meeting_hud@)
    &&& a.object_cache_ptr@ == b.object_cache_ptr@
    &&& a.meeting_hud_state@ == b.meeting_hud_state@
    &&& same_behind_slot(a.all_players_ptr@, b.all_players_ptr@)
    &&& a.all_players@ == b.all_players@
    &&& a.player_count@ == b.player_count@
    &&& a.player_addr_ptr == b.player_addr_ptr
    &&& same_behind_slot(a.ship_status@, b.ship_status@)
    &&& a.ship_status_systems@ == b.ship_status_systems@
    &&& a.ship_status_map@ == b.ship_status_map@
    &&& a.shipstatus_all_doors@ == b.shipstatus_all_doors@
    &&& a.door_door_id == b.door_door_id
    &&& a.door_is_open == b.door_is_open
    &&& a.decon_door_upper_open@ == b.decon_door_upper_open@
    &&& a.decon_door_lower_open@ == b.decon_door_lower_open@
    &&& a.hq_hud_completed_consoles@ == b.hq_hud_completed_consoles@
    &&& a.hud_override_is_active@ == b.hud_override_is_active@
    &&& same_behind_slot(a.mini_game@, b.mini_game@)
    &&& a.planet_surveillance_current_camera@ == b.planet_surveillance_current_camera@
    &&& a.planet_surveillance_camaras_count@ == b.planet_surveillance_camaras_count@
    &&& a.surveillance_filtered_rooms_count@ == b.surveillance_filtered_rooms_count@
    &&& a.light_radius@ == b.light_radius@
    &&& same_behind_slot(a.palette@, b.palette@)
    &&& a.palette_playercolor@ == b.palette_playercolor@
    &&& a.palette_shadow_color@ == b.palette_shadow_color@
    &&& same_behind_slot(a.player_control_game_options@, b.player_control_game_options@)
    &&& same_behind_slot(a.gameoptions_data@, b.gameoptions_data@)
    &&& a.game_options_map_id@ == b.game_options_map_id@
    &&& a.game_options_max_players@ == b.game_options_max_players@
    &&& same_behind_slot(a.server_manager_current_server@, b.server_manager_current_server@)
    &&& a.connect_func == b.connect_func
    &&& a.show_mod_stamp_func == b.show_mod_stamp_func
    &&& a.mod_late_update_func == b.mod_late_update_func
    &&& a.fixed_update_func == b.fixed_update_func
    &&& a.ping_message_string == b.ping_message_string
    &&& clients_same_but_for_slots(a.inner_net_client, b.inner_net_client)
    &&& a.player.says_same(b.player)
    &&& a.signatures.says_same(b.signatures)
    &&& a.old_meeting_hud == b.old_meeting_hud
    &&& a.disable_writing == b.disable_writing
    &&& a.new_game_options == b.new_game_options
}

/// As [`same_but_for_slots`], for what is read of the client.
pub open spec fn clients_same_but_for_slots(a: InnerNetClient, b: InnerNetClient) -> bool {
    &&& same_behind_slot(a.base@, b.base@)
    &&& a.network_address == b.network_address
    &&& a.network_port == b.network_port
    &&& a.game_mode == b.game_mode
    &&& a.game_id == b.game_id
    &&& a.host_id == b.host_id
    &&& a.client_id == b.client_id
    &&& a.game_state == b.game_state
    &&& a.online_scene == b.online_scene
    &&& a.main_menu_scene == b.main_menu_scene
}

/// Two leaves stand at the same place and hold the same, unless the place is a
/// slot that the client replaces.
spec fn leaf_alike(a: Leaf, b: Leaf) -> bool {
    a.0 == b.0 && (a.1 == b.1 || replaced_slot(a.0))
}

#[verifier::opaque]
spec fn alike(a: Seq<Leaf>, b: Seq<Leaf>) -> bool {
    a.len() == b.len() && forall|i: int| 0 <= i < a.len() ==> leaf_alike(#[trigger] a[i], b[i])
}

proof fn lemma_same(a: Seq<Leaf>)
    ensures
        alike(a, a),
{
    reveal(alike);
}

proof fn lemma_start(path: Seq<char>)
    ensures
        alike(member_leaves(no_members(), path), member_leaves(no_members(), path)),
{
    lemma_same(member_leaves(no_members(), path));
}

proof fn lemma_member(
    m: MembersView,
    n: MembersView,
    path: Seq<char>,
    key: Seq<char>,
    v: JsonView,
    w: JsonView,
)
    requires
        alike(member_leaves(m, path), member_leaves(n, path)),
        v == w || alike(leaves(v, member_path(path, key)), leaves(w, member_path(path, key))),
    ensures
        alike(
            member_leaves(m.push((key, v)), path),
            member_leaves(n.push((key, w)), path),
        ),
{
    reveal(alike);
    let x = m.push((key, v));
    let y = n.push((key, w));
    assert(x.drop_last() =~= m);
    assert(y.drop_last() =~= n);
    let before = member_leaves(m, path);
    let other = member_leaves(n, path);
    let added = leaves(v, member_path(path, key));
    let instead = leaves(w, member_path(path, key));
    assert forall|i: int| 0 <= i < (before + added).len() implies leaf_alike(
        #[trigger] (before + added)[i],
        (other + instead)[i],
    ) by {
        if i < before.len() {
            assert(leaf_alike(before[i], other[i]));
        } else if v != w {
            assert(leaf_alike(added[i - before.len()], instead[i - before.len()]));
        }
    }
}

/// The leaves of an array of numbers are its items.
proof fn lemma_items(items: Seq<JsonView>, x: Seq<i64>, path: Seq<char>)
    requires
        items.len() == x.len(),
        forall|i: int| 0 <= i < items.len() ==> #[trigger] items[i] == JsonView::Integer(x[i]),
    ensures
        item_leaves(items, path).len() == x.len(),
        forall|i: int|
            0 <= i < x.len() ==> #[trigger] item_leaves(items, path)[i] == (
                item_path(path, i),
                Some(x[i]),
            ),
    decreases items.len(),
{
    if items.len() > 0 {
        let last = items.len() - 1;
        let shorter = items.drop_last();
        let fewer = x.drop_last();
        assert forall|i: int| 0 <= i < shorter.len() implies #[trigger] shorter[i]
            == JsonView::Integer(fewer[i]) by {
            assert(items[i] == JsonView::Integer(x[i]));
        }
        lemma_items(shorter, fewer, path);
        assert(items[last] == JsonView::Integer(x[last]));
        let here = item_path(path, last);
        assert(leaves(items.last(), here) == Seq::empty().push((here, Some(x[last]))));
        assert forall|i: int| 0 <= i < x.len() implies #[trigger] item_leaves(items, path)[i] == (
            item_path(path, i),
            Some(x[i]),
        ) by {
            if i < last {
                assert(item_leaves(items, path)[i] == item_leaves(shorter, path)[i]);
            }
        }
    }
}

/// Two chains that differ only in a slot that the client replaces have leaves
/// that are alike.
proof fn lemma_chain(path: Seq<char>, x: Seq<i64>, y: Seq<i64>)
    requires
        same_behind_slot(x, y),
        replaced_slot(path + "[0]"@),
    ensures
        alike(leaves(numbers_json(x), path), leaves(numbers_json(y), path)),
{
    reveal(alike);
    reveal_strlit("[");
    reveal_strlit("]");
    reveal_strlit("[0]");
    assert(decimal(0) =~= seq![digit(0)]);
    let xs = numbers_json(x)->List_0;
    let ys = numbers_json(y)->List_0;
    lemma_items(xs, x, path);
    lemma_items(ys, y, path);
    assert(item_path(path, 0) =~= path + "[0]"@);
    let a = item_leaves(xs, path);
    let b = item_leaves(ys, path);
    assert forall|i: int| 0 <= i < a.len() implies leaf_alike(#[trigger] a[i], b[i]) by {
        if i > 0 {
            assert(x[i] == y[i]);
        }
    }
}

/// Leaves that are alike have the same problems.
proof fn lemma_leaf_problems(a: Seq<Leaf>, b: Seq<Leaf>)
    requires
        alike(a, b),
    ensures
        a.len() == b.len(),
        leaf_problems(a) == leaf_problems(b),
    decreases a.len(),
{
    reveal(alike);
    if a.len() > 0 {
        let last = a.len() - 1;
        assert(leaf_alike(a[last], b[last]));
        assert forall|i: int| 0 <= i < last implies leaf_alike(
            #[trigger] a.drop_last()[i],
            b.drop_last()[i],
        ) by {
            assert(leaf_alike(a[i], b[i]));
        }
        lemma_leaf_problems(a.drop_last(), b.drop_last());
        assert(leaf_problem(a[last]) == leaf_problem(b[last]));
    }
}

proof fn lemma_shape(
    x: Seq<(Seq<char>, Seq<i64>, SigView)>,
    y: Seq<(Seq<char>, Seq<i64>, SigView)>,
)
    requires
        x.len() == y.len(),
        forall|i: int|
            0 <= i < x.len() ==> (#[trigger] x[i]).0 == y[i].0 && same_behind_slot(x[i].1, y[i].1)
                && x[i].2 == y[i].2,
    ensures
        shape(x) == shape(y),
    decreases x.len(),
{
    if x.len() > 0 {
        let m = x.drop_last();
        let n = y.drop_last();
        assert forall|i: int| 0 <= i < m.len() implies (#[trigger] m[i]).0 == n[i].0
            && same_behind_slot(m[i].1, n[i].1) && m[i].2 == n[i].2 by {
            assert(x[i].0 == y[i].0);
        }
        lemma_shape(m, n);
        let last = x.len() - 1;
        assert(x[last].0 == y[last].0);
        if x[last].1.len() >= 2 {
            assert(x[last].1[1] == y[last].1[1]);
        }
    }
}

proof fn lemma_player(a: Player, b: Player)
    requires
        a.says_same(b),
    ensures
        a.json() == b.json(),
{
    assert(a.outfit.json() == b.outfit.json());
    assert(layout_views(a.struct_layout@) == layout_views(b.struct_layout@));
    assert(layout_json(a.struct_layout@) == layout_json(b.struct_layout@));
}

proof fn lemma_signatures(a: Signatures, b: Signatures)
    requires
        a.says_same(b),
    ensures
        a.json() == b.json(),
{
}

proof fn lemma_client(a: InnerNetClient, b: InnerNetClient)
    requires
        clients_same_but_for_slots(a, b),
    ensures
        alike(leaves(a.json(), "innerNetClient"@), leaves(b.json(), "innerNetClient"@)),
{
    reveal_strlit("innerNetClient");
    reveal_strlit(".");
    reveal_strlit("base");
    reveal_strlit("innerNetClient.base");
    let path = "innerNetClient"@;
    assert(member_path(path, "base"@) =~= "innerNetClient.base"@);
    let m = no_members();
    let n = no_members();
    lemma_start(path);
    lemma_chain(member_path(path, "base"@), a.base@, b.base@);
    lemma_member(m, n, path, "base"@, numbers_json(a.base@), numbers_json(b.base@));
    let m = m.push(("base"@, numbers_json(a.base@)));
    let n = n.push(("base"@, numbers_json(b.base@)));
    lemma_member(
        m,
        n,
        path,
        "networkAddress"@,
        JsonView::Integer(a.network_address),
        JsonView::Integer(b.network_address),
    );
    let m = m.push(("networkAddress"@, JsonView::Integer(a.network_address)));
    let n = n.push(("networkAddress"@, JsonView::Integer(b.network_address)));
    lemma_member(
        m,
        n,
        path,
        "networkPort"@,
        JsonView::Integer(a.network_port),
        JsonView::Integer(b.network_port),
    );
    let m = m.push(("networkPort"@, JsonView::Integer(a.network_port)));
    let n = n.push(("networkPort"@, JsonView::Integer(b.network_port)));
    lemma_member(
        m,
        n,
        path,
        "gameMode"@,
        JsonView::Integer(a.game_mode),
        JsonView::Integer(b.game_mode),
    );
    let m = m.push(("gameMode"@, JsonView::Integer(a.game_mode)));
    let n = n.push(("gameMode"@, JsonView::Integer(b.game_mode)));
    lemma_member(m, n, path, "gameId"@, JsonView::Integer(a.game_id), JsonView::Integer(b.game_id));
    let m = m.push(("gameId"@, JsonView::Integer(a.game_id)));
    let n = n.push(("gameId"@, JsonView::Integer(b.game_id)));
    lemma_member(m, n, path, "hostId"@, JsonView::Integer(a.host_id), JsonView::Integer(b.host_id));
    let m = m.push(("hostId"@, JsonView::Integer(a.host_id)));
    let n = n.push(("hostId"@, JsonView::Integer(b.host_id)));
    lemma_member(
        m,
        n,
        path,
        "clientId"@,
        JsonView::Integer(a.client_id),
        JsonView::Integer(b.client_id),
    );
    let m = m.push(("clientId"@, JsonView::Integer(a.client_id)));
    let n = n.push(("clientId"@, JsonView::Integer(b.client_id)));
    lemma_member(
        m,
        n,
        path,
        "gameState"@,
        JsonView::Integer(a.game_state),
        JsonView::Integer(b.game_state),
    );
    let m = m.push(("gameState"@, JsonView::Integer(a.game_state)));
    let n = n.push(("gameState"@, JsonView::Integer(b.game_state)));
    lemma_member(
        m,
        n,
        path,
        "onlineScene"@,
        JsonView::Integer(a.online_scene),
        JsonView::Integer(b.online_scene),
    );
    let m = m.push(("onlineScene"@, JsonView::Integer(a.online_scene)));
    let n = n.push(("onlineScene"@, JsonView::Integer(b.online_scene)));
    lemma_member(
        m,
        n,
        path,
        "mainMenuScene"@,
        JsonView::Integer(a.main_menu_scene),
        JsonView::Integer(b.main_menu_scene),
    );
    let m = m.push(("mainMenuScene"@, JsonView::Integer(a.main_menu_scene)));
    let n = n.push(("mainMenuScene"@, JsonView::Integer(b.main_menu_scene)));
    assert(a.json() == JsonView::Object(m));
    assert(b.json() == JsonView::Object(n));
}

#[verifier::rlimit(40)]
proof fn lemma_file(a: Offsets, b: Offsets)
    requires
        same_but_for_slots(a, b),
    ensures
        alike(file_leaves(a), file_leaves(b)),
{
    let path: Seq<char> = Seq::empty();
    let m = no_members();
    let n = no_members();
    lemma_start(path);
    lemma_chain(member_path(path, "meetingHud"@), a.meeting_hud@, b.meeting_hud@);
    lemma_member(
        m,
        n,
        path,
        "meetingHud"@,
        numbers_json(a.meeting_hud@),
        numbers_json(b.meeting_hud@),
    );
    let m = m.push(("meetingHud"@, numbers_json(a.meeting_hud@)));
    let n = n.push(("meetingHud"@, numbers_json(b.meeting_hud@)));
    lemma_member(
        m,
        n,
        path,
        "objectCachePtr"@,
        numbers_json(a.object_cache_ptr@),
        numbers_json(b.object_cache_ptr@),
    );
    let m = m.push(("objectCachePtr"@, numbers_json(a.object_cache_ptr@)));
    let n = n.push(("objectCachePtr"@, numbers_json(b.object_cache_ptr@)));
    lemma_member(
        m,
        n,
        path,
        "meetingHudState"@,
        numbers_json(a.meeting_hud_state@),
        numbers_json(b.meeting_hud_state@),
    );
    let m = m.push(("meetingHudState"@, numbers_json(a.meeting_hud_state@)));
    let n = n.push(("meetingHudState"@, numbers_json(b.meeting_hud_state@)));
    lemma_chain(member_path(path, "allPlayersPtr"@), a.all_players_ptr@, b.all_players_ptr@);
    lemma_member(
        m,
        n,
        path,
        "allPlayersPtr"@,
        numbers_json(a.all_players_ptr@),
        numbers_json(b.all_players_ptr@),
    );
    let m = m.push(("allPlayersPtr"@, numbers_json(a.all_players_ptr@)));
    let n = n.push(("allPlayersPtr"@, numbers_json(b.all_players_ptr@)));
    lemma_member(
        m,
        n,
        path,
        "allPlayers"@,
        numbers_json(a.all_players@),
        numbers_json(b.all_players@),
    );
    let m = m.push(("allPlayers"@, numbers_json(a.all_players@)));
    let n = n.push(("allPlayers"@, numbers_json(b.all_players@)));
    lemma_member(
        m,
        n,
        path,
        "playerCount"@,
        numbers_json(a.player_count@),
        numbers_json(b.player_count@),
    );
    let m = m.push(("playerCount"@, numbers_json(a.player_count@)));
    let n = n.push(("playerCount"@, numbers_json(b.player_count@)));
    lemma_member(
        m,
        n,
        path,
        "playerAddrPtr"@,
        JsonView::Integer(a.player_addr_ptr),
        JsonView::Integer(b.player_addr_ptr),
    );
    let m = m.push(("playerAddrPtr"@, JsonView::Integer(a.player_addr_ptr)));
    let n = n.push(("playerAddrPtr"@, JsonView::Integer(b.player_addr_ptr)));
    lemma_chain(member_path(path, "shipStatus"@), a.ship_status@, b.ship_status@);
    lemma_member(
        m,
        n,
        path,
        "shipStatus"@,
        numbers_json(a.ship_status@),
        numbers_json(b.ship_status@),
    );
    let m = m.push(("shipStatus"@, numbers_json(a.ship_status@)));
    let n = n.push(("shipStatus"@, numbers_json(b.ship_status@)));
    lemma_member(
        m,
        n,
        path,
        "shipStatus_systems"@,
        numbers_json(a.ship_status_systems@),
        numbers_json(b.ship_status_systems@),
    );
    let m = m.push(("shipStatus_systems"@, numbers_json(a.ship_status_systems@)));
    let n = n.push(("shipStatus_systems"@, numbers_json(b.ship_status_systems@)));
    lemma_member(
        m,
        n,
        path,
        "shipStatus_map"@,
        numbers_json(a.ship_status_map@),
        numbers_json(b.ship_status_map@),
    );
    let m = m.push(("shipStatus_map"@, numbers_json(a.ship_status_map@)));
    let n = n.push(("shipStatus_map"@, numbers_json(b.ship_status_map@)));
    lemma_member(
        m,
        n,
        path,
        "shipstatus_allDoors"@,
        numbers_json(a.shipstatus_all_doors@),
        numbers_json(b.shipstatus_all_doors@),
    );
    let m = m.push(("shipstatus_allDoors"@, numbers_json(a.shipstatus_all_doors@)));
    let n = n.push(("shipstatus_allDoors"@, numbers_json(b.shipstatus_all_doors@)));
    lemma_member(
        m,
        n,
        path,
        "door_doorId"@,
        JsonView::Integer(a.door_door_id),
        JsonView::Integer(b.door_door_id),
    );
    let m = m.push(("door_doorId"@, JsonView::Integer(a.door_door_id)));
    let n = n.push(("door_doorId"@, JsonView::Integer(b.door_door_id)));
    lemma_member(
        m,
        n,
        path,
        "door_isOpen"@,
        JsonView::Integer(a.door_is_open),
        JsonView::Integer(b.door_is_open),
    );
    let m = m.push(("door_isOpen"@, JsonView::Integer(a.door_is_open)));
    let n = n.push(("door_isOpen"@, JsonView::Integer(b.door_is_open)));
    lemma_member(
        m,
        n,
        path,
        "deconDoorUpperOpen"@,
        numbers_json(a.decon_door_upper_open@),
        numbers_json(b.decon_door_upper_open@),
    );
    let m = m.push(("deconDoorUpperOpen"@, numbers_json(a.decon_door_upper_open@)));
    let n = n.push(("deconDoorUpperOpen"@, numbers_json(b.decon_door_upper_open@)));
    lemma_member(
        m,
        n,
        path,
        "deconDoorLowerOpen"@,
        numbers_json(a.decon_door_lower_open@),
        numbers_json(b.decon_door_lower_open@),
    );
    let m = m.push(("deconDoorLowerOpen"@, numbers_json(a.decon_door_lower_open@)));
    let n = n.push(("deconDoorLowerOpen"@, numbers_json(b.decon_door_lower_open@)));
    lemma_member(
        m,
        n,
        path,
        "hqHudSystemType_CompletedConsoles"@,
        numbers_json(a.hq_hud_completed_consoles@),
        numbers_json(b.hq_hud_completed_consoles@),
    );
    let m = m.push(
        ("hqHudSystemType_CompletedConsoles"@, numbers_json(a.hq_hud_completed_consoles@)),
    );
    let n = n.push(
        ("hqHudSystemType_CompletedConsoles"@, numbers_json(b.hq_hud_completed_consoles@)),
    );
    lemma_member(
        m,
        n,
        path,
        "HudOverrideSystemType_isActive"@,
        numbers_json(a.hud_override_is_active@),
        numbers_json(b.hud_override_is_active@),
    );
    let m = m.push(("HudOverrideSystemType_isActive"@, numbers_json(a.hud_override_is_active@)));
    let n = n.push(("HudOverrideSystemType_isActive"@, numbers_json(b.hud_override_is_active@)));
    lemma_chain(member_path(path, "miniGame"@), a.mini_game@, b.mini_game@);
    lemma_member(m, n, path, "miniGame"@, numbers_json(a.mini_game@), numbers_json(b.mini_game@));
    let m = m.push(("miniGame"@, numbers_json(a.mini_game@)));
    let n = n.push(("miniGame"@, numbers_json(b.mini_game@)));
    lemma_member(
        m,
        n,
        path,
        "planetSurveillanceMinigame_currentCamera"@,
        numbers_json(a.planet_surveillance_current_camera@),
        numbers_json(b.planet_surveillance_current_camera@),
    );
    let m = m.push(
        ("planetSurveillanceMinigame_currentCamera"@, numbers_json(a.planet_surveillance_current_camera@)),
    );
    let n = n.push(
        ("planetSurveillanceMinigame_currentCamera"@, numbers_json(b.planet_surveillance_current_camera@)),
    );
    lemma_member(
        m,
        n,
        path,
        "planetSurveillanceMinigame_camarasCount"@,
        numbers_json(a.planet_surveillance_camaras_count@),
        numbers_json(b.planet_surveillance_camaras_count@),
    );
    let m = m.push(
        ("planetSurveillanceMinigame_camarasCount"@, numbers_json(a.planet_surveillance_camaras_count@)),
    );
    let n = n.push(
        ("planetSurveillanceMinigame_camarasCount"@, numbers_json(b.planet_surveillance_camaras_count@)),
    );
    lemma_member(
        m,
        n,
        path,
        "surveillanceMinigame_FilteredRoomsCount"@,
        numbers_json(a.surveillance_filtered_rooms_count@),
        numbers_json(b.surveillance_filtered_rooms_count@),
    );
    let m = m.push(
        ("surveillanceMinigame_FilteredRoomsCount"@, numbers_json(a.surveillance_filtered_rooms_count@)),
    );
    let n = n.push(
        ("surveillanceMinigame_FilteredRoomsCount"@, numbers_json(b.surveillance_filtered_rooms_count@)),
    );
    lemma_member(
        m,
        n,
        path,
        "lightRadius"@,
        numbers_json(a.light_radius@),
        numbers_json(b.light_radius@),
    );
    let m = m.push(("lightRadius"@, numbers_json(a.light_radius@)));
    let n = n.push(("lightRadius"@, numbers_json(b.light_radius@)));
    lemma_chain(member_path(path, "palette"@), a.palette@, b.palette@);
    lemma_member(m, n, path, "palette"@, numbers_json(a.palette@), numbers_json(b.palette@));
    let m = m.push(("palette"@, numbers_json(a.palette@)));
    let n = n.push(("palette"@, numbers_json(b.palette@)));
    lemma_member(
        m,
        n,
        path,
        "palette_playercolor"@,
        numbers_json(a.palette_playercolor@),
        numbers_json(b.palette_playercolor@),
    );
    let m = m.push(("palette_playercolor"@, numbers_json(a.palette_playercolor@)));
    let n = n.push(("palette_playercolor"@, numbers_json(b.palette_playercolor@)));
    lemma_member(
        m,
        n,
        path,
        "palette_shadowColor"@,
        numbers_json(a.palette_shadow_color@),
        numbers_json(b.palette_shadow_color@),
    );
    let m = m.push(("palette_shadowColor"@, numbers_json(a.palette_shadow_color@)));
    let n = n.push(("palette_shadowColor"@, numbers_json(b.palette_shadow_color@)));
    lemma_chain(member_path(path, "playerControl_GameOptions"@), a.player_control_game_options@, b.player_control_game_options@);
    lemma_member(
        m,
        n,
        path,
        "playerControl_GameOptions"@,
        numbers_json(a.player_control_game_options@),
        numbers_json(b.player_control_game_options@),
    );
    let m = m.push(("playerControl_GameOptions"@, numbers_json(a.player_control_game_options@)));
    let n = n.push(("playerControl_GameOptions"@, numbers_json(b.player_control_game_options@)));
    lemma_chain(member_path(path, "gameoptionsData"@), a.gameoptions_data@, b.gameoptions_data@);
    lemma_member(
        m,
        n,
        path,
        "gameoptionsData"@,
        numbers_json(a.gameoptions_data@),
        numbers_json(b.gameoptions_data@),
    );
    let m = m.push(("gameoptionsData"@, numbers_json(a.gameoptions_data@)));
    let n = n.push(("gameoptionsData"@, numbers_json(b.gameoptions_data@)));
    lemma_member(
        m,
        n,
        path,
        "gameOptions_MapId"@,
        numbers_json(a.game_options_map_id@),
        numbers_json(b.game_options_map_id@),
    );
    let m = m.push(("gameOptions_MapId"@, numbers_json(a.game_options_map_id@)));
    let n = n.push(("gameOptions_MapId"@, numbers_json(b.game_options_map_id@)));
    lemma_member(
        m,
        n,
        path,
        "gameOptions_MaxPLayers"@,
        numbers_json(a.game_options_max_players@),
        numbers_json(b.game_options_max_players@),
    );
    let m = m.push(("gameOptions_MaxPLayers"@, numbers_json(a.game_options_max_players@)));
    let n = n.push(("gameOptions_MaxPLayers"@, numbers_json(b.game_options_max_players@)));
    lemma_chain(member_path(path, "serverManager_currentServer"@), a.server_manager_current_server@, b.server_manager_current_server@);
    lemma_member(
        m,
        n,
        path,
        "serverManager_currentServer"@,
        numbers_json(a.server_manager_current_server@),
        numbers_json(b.server_manager_current_server@),
    );
    let m = m.push(
        ("serverManager_currentServer"@, numbers_json(a.server_manager_current_server@)),
    );
    let n = n.push(
        ("serverManager_currentServer"@, numbers_json(b.server_manager_current_server@)),
    );
    lemma_member(
        m,
        n,
        path,
        "connectFunc"@,
        JsonView::Integer(a.connect_func),
        JsonView::Integer(b.connect_func),
    );
    let m = m.push(("connectFunc"@, JsonView::Integer(a.connect_func)));
    let n = n.push(("connectFunc"@, JsonView::Integer(b.connect_func)));
    lemma_member(
        m,
        n,
        path,
        "showModStampFunc"@,
        JsonView::Integer(a.show_mod_stamp_func),
        JsonView::Integer(b.show_mod_stamp_func),
    );
    let m = m.push(("showModStampFunc"@, JsonView::Integer(a.show_mod_stamp_func)));
    let n = n.push(("showModStampFunc"@, JsonView::Integer(b.show_mod_stamp_func)));
    lemma_member(
        m,
        n,
        path,
        "modLateUpdateFunc"@,
        JsonView::Integer(a.mod_late_update_func),
        JsonView::Integer(b.mod_late_update_func),
    );
    let m = m.push(("modLateUpdateFunc"@, JsonView::Integer(a.mod_late_update_func)));
    let n = n.push(("modLateUpdateFunc"@, JsonView::Integer(b.mod_late_update_func)));
    lemma_member(
        m,
        n,
        path,
        "fixedUpdateFunc"@,
        JsonView::Integer(a.fixed_update_func),
        JsonView::Integer(b.fixed_update_func),
    );
    let m = m.push(("fixedUpdateFunc"@, JsonView::Integer(a.fixed_update_func)));
    let n = n.push(("fixedUpdateFunc"@, JsonView::Integer(b.fixed_update_func)));
    lemma_member(
        m,
        n,
        path,
        "pingMessageString"@,
        JsonView::Integer(a.ping_message_string),
        JsonView::Integer(b.ping_message_string),
    );
    let m = m.push(("pingMessageString"@, JsonView::Integer(a.ping_message_string)));
    let n = n.push(("pingMessageString"@, JsonView::Integer(b.ping_message_string)));
    lemma_client(a.inner_net_client, b.inner_net_client);
    lemma_member(
        m,
        n,
        path,
        "innerNetClient"@,
        a.inner_net_client.json(),
        b.inner_net_client.json(),
    );
    let m = m.push(("innerNetClient"@, a.inner_net_client.json()));
    let n = n.push(("innerNetClient"@, b.inner_net_client.json()));
    lemma_player(a.player, b.player);
    lemma_member(m, n, path, "player"@, a.player.json(), b.player.json());
    let m = m.push(("player"@, a.player.json()));
    let n = n.push(("player"@, b.player.json()));
    lemma_signatures(a.signatures, b.signatures);
    lemma_member(m, n, path, "signatures"@, a.signatures.json(), b.signatures.json());
    let m = m.push(("signatures"@, a.signatures.json()));
    let n = n.push(("signatures"@, b.signatures.json()));
    lemma_member(
        m,
        n,
        path,
        "oldMeetingHud"@,
        JsonView::Bool(a.old_meeting_hud),
        JsonView::Bool(b.old_meeting_hud),
    );
    let m = m.push(("oldMeetingHud"@, JsonView::Bool(a.old_meeting_hud)));
    let n = n.push(("oldMeetingHud"@, JsonView::Bool(b.old_meeting_hud)));
    lemma_member(
        m,
        n,
        path,
        "disableWriting"@,
        JsonView::Bool(a.disable_writing),
        JsonView::Bool(b.disable_writing),
    );
    let m = m.push(("disableWriting"@, JsonView::Bool(a.disable_writing)));
    let n = n.push(("disableWriting"@, JsonView::Bool(b.disable_writing)));
    lemma_member(
        m,
        n,
        path,
        "newGameOptions"@,
        JsonView::Bool(a.new_game_options),
        JsonView::Bool(b.new_game_options),
    );
    let m = m.push(("newGameOptions"@, JsonView::Bool(a.new_game_options)));
    let n = n.push(("newGameOptions"@, JsonView::Bool(b.new_game_options)));
    assert(a.json() == JsonView::Object(m));
    assert(b.json() == JsonView::Object(n));
}

/// Slot 0 of a chain that is backed by a signature is not checked: of two files
/// that differ only there, the same problems and warnings are reported, and as
/// many checks are run.
pub proof fn slot_zero_does_not_count(
    a: Offsets,
    b: Offsets,
    image: ImageView,
    types: Map<Seq<char>, u64>,
)
    requires
        same_but_for_slots(a, b),
    ensures
        structural(a) == structural(b),
        all_problems(a, image, types) == all_problems(b, image, types),
        write_warnings(a, image) == write_warnings(b, image),
        check_count(a, image) == check_count(b, image),
{
    lemma_file(a, b);
    lemma_leaf_problems(file_leaves(a), file_leaves(b));
    let x = backed_chains(a);
    let y = backed_chains(b);
    assert forall|i: int| 0 <= i < x.len() implies (#[trigger] x[i]).0 == y[i].0
        && same_behind_slot(x[i].1, y[i].1) && x[i].2 == y[i].2 by {}
    lemma_shape(x, y);
}

/// What the file alone shows to be wrong is reported first, whatever the game
/// build adds to it.
pub proof fn structural_problems_come_first(
    offsets: Offsets,
    image: ImageView,
    types: Map<Seq<char>, u64>,
)
    ensures
        structural(offsets).len() <= all_problems(offsets, image, types).len(),
        all_problems(offsets, image, types).take(structural(offsets).len() as int) == structural(
            offsets,
        ),
{
    assert(all_problems(offsets, image, types).take(structural(offsets).len() as int)
        =~= structural(offsets));
}

} // verus!
