//! Which numbers of a file are believed: every one that is no part of a signature
//! and in no slot that the client replaces has to be an offset that a field can
//! have.

use vstd::prelude::*;

use crate::json::{JsonView, MembersView};
use crate::numbers::{decimal, decimal_round_trips, digit};
use crate::offsets::{
    layout_json, layout_views, no_members, numbers_json, InnerNetClient, Offsets, Outfit, Player,
    StructMember, StructMemberView,
};
use crate::text::occurs_at;
use crate::validate::{
    file_leaves, item_leaves, item_path, leaf_problem, leaf_problems, leaves, member_leaves,
    member_path, replaced_slot, Leaf,
};

verus! {

/// A number that a field's offset can be.
pub open spec fn plausible(n: i64) -> bool {
    0 <= n <= 65_536
}

/// Every number of a chain from `first` on is plausible.
pub open spec fn plausible_from(chain: Seq<i64>, first: int) -> bool {
    forall|i: int| first <= i < chain.len() ==> plausible(#[trigger] chain[i])
}

/// The paddings of a struct are plausible.
pub open spec fn plausible_padding(layout: Seq<StructMember>) -> bool {
    forall|i: int|
        0 <= i < layout.len() ==> ((#[trigger] layout[i]).skip matches Some(n) ==> plausible(n))
}

/// Every number of a file is plausible, but for slot 0 of the chains whose first
/// element the client replaces, and for what belongs to signatures.
pub open spec fn numbers_plausible(o: Offsets) -> bool {
    &&& plausible_from(o.meeting_hud@, 1)
    &&& plausible_from(o.object_cache_ptr@, 0)
    &&& plausible_from(o.meeting_hud_state@, 0)
    &&& plausible_from(o.all_players_ptr@, 1)
    &&& plausible_from(o.all_players@, 0)
    &&& plausible_from(o.player_count@, 0)
    &&& plausible(o.player_addr_ptr)
    &&& plausible_from(o.ship_status@, 1)
    &&& plausible_from(o.ship_status_systems@, 0)
    &&& plausible_from(o.ship_status_map@, 0)
    &&& plausible_from(o.shipstatus_all_doors@, 0)
    &&& plausible(o.door_door_id)
    &&& plausible(o.door_is_open)
    &&& plausible_from(o.decon_door_upper_open@, 0)
    &&& plausible_from(o.decon_door_lower_open@, 0)
    &&& plausible_from(o.hq_hud_completed_consoles@, 0)
    &&& plausible_from(o.hud_override_is_active@, 0)
    &&& plausible_from(o.mini_game@, 1)
    &&& plausible_from(o.planet_surveillance_current_camera@, 0)
    &&& plausible_from(o.planet_surveillance_camaras_count@, 0)
    &&& plausible_from(o.surveillance_filtered_rooms_count@, 0)
    &&& plausible_from(o.light_radius@, 0)
    &&& plausible_from(o.palette@, 1)
    &&& plausible_from(o.palette_playercolor@, 0)
    &&& plausible_from(o.palette_shadow_color@, 0)
    &&& plausible_from(o.player_control_game_options@, 1)
    &&& plausible_from(o.gameoptions_data@, 1)
    &&& plausible_from(o.game_options_map_id@, 0)
    &&& plausible_from(o.game_options_max_players@, 0)
    &&& plausible_from(o.server_manager_current_server@, 1)
    &&& plausible(o.connect_func)
    &&& plausible(o.show_mod_stamp_func)
    &&& plausible(o.mod_late_update_func)
    &&& plausible(o.fixed_update_func)
    &&& plausible(o.ping_message_string)
    &&& client_plausible(o.inner_net_client)
    &&& player_plausible(o.player)
}

/// As [`numbers_plausible`], for what is read of the client.
pub open spec fn client_plausible(c: InnerNetClient) -> bool {
    &&& plausible_from(c.base@, 1)
    &&& plausible(c.network_address)
    &&& plausible(c.network_port)
    &&& plausible(c.game_mode)
    &&& plausible(c.game_id)
    &&& plausible(c.host_id)
    &&& plausible(c.client_id)
    &&& plausible(c.game_state)
    &&& plausible(c.online_scene)
    &&& plausible(c.main_menu_scene)
}

/// As [`numbers_plausible`], for a player.
pub open spec fn player_plausible(p: Player) -> bool {
    &&& plausible_padding(p.struct_layout@)
    &&& plausible_from(p.is_dummy@, 0)
    &&& plausible_from(p.is_local@, 0)
    &&& plausible_from(p.local_x@, 0)
    &&& plausible_from(p.local_y@, 0)
    &&& plausible_from(p.remote_x@, 0)
    &&& plausible_from(p.remote_y@, 0)
    &&& plausible(p.buffer_length)
    &&& plausible_from(p.offsets@, 0)
    &&& plausible_from(p.in_vent@, 0)
    &&& plausible_from(p.client_id@, 0)
    &&& plausible_from(p.current_outfit@, 0)
    &&& plausible_from(p.role_team@, 0)
    &&& plausible_from(p.name_text@, 0)
    &&& outfit_plausible(p.outfit)
}

/// As [`numbers_plausible`], for an outfit.
pub open spec fn outfit_plausible(f: Outfit) -> bool {
    &&& plausible_from(f.color_id@, 0)
    &&& plausible_from(f.hat_id@, 0)
    &&& plausible_from(f.skin_id@, 0)
    &&& plausible_from(f.visor_id@, 0)
    &&& plausible_from(f.player_name@, 0)
}

/// Nothing is wrong with these leaves.
#[verifier::opaque]
spec fn clean(all: Seq<Leaf>) -> bool {
    leaf_problems(all).len() == 0
}

proof fn lemma_clean_one(leaf: Leaf)
    ensures
        clean(Seq::empty().push(leaf)) <==> leaf_problem(leaf) is None,
        clean(Seq::empty()),
{
    reveal(clean);
    let none: Seq<Leaf> = Seq::empty();
    assert(none.push(leaf).drop_last() =~= none);
    assert(leaf_problems(none).len() == 0);
}

proof fn lemma_clean_add(a: Seq<Leaf>, b: Seq<Leaf>)
    ensures
        clean(a + b) <==> clean(a) && clean(b),
    decreases b.len(),
{
    reveal(clean);
    if b.len() > 0 {
        lemma_clean_add(a, b.drop_last());
        assert((a + b).drop_last() =~= a + b.drop_last());
        assert((a + b).last() == b.last());
    } else {
        assert(a + b =~= a);
        assert(leaf_problems(b).len() == 0);
    }
}

proof fn lemma_member(m: MembersView, path: Seq<char>, key: Seq<char>, v: JsonView)
    ensures
        clean(member_leaves(m.push((key, v)), path)) <==> clean(member_leaves(m, path)) && clean(
            leaves(v, member_path(path, key)),
        ),
{
    assert(m.push((key, v)).drop_last() =~= m);
    lemma_clean_add(member_leaves(m, path), leaves(v, member_path(path, key)));
}

proof fn lemma_start(path: Seq<char>)
    ensures
        clean(member_leaves(no_members(), path)),
{
    lemma_clean_one((path, None));
}

/// A path without brackets that does not start as the signatures' do.
spec fn ordinary(path: Seq<char>) -> bool {
    &&& path.len() >= 2
    &&& !(path[0] == 's' && path[1] == 'i')
    &&& forall|i: int| 0 <= i < path.len() ==> #[trigger] path[i] != '['
}

/// The path of a chain whose first element the client replaces.
spec fn is_replaced(path: Seq<char>) -> bool {
    ||| path == "meetingHud"@
    ||| path == "allPlayersPtr"@
    ||| path == "shipStatus"@
    ||| path == "miniGame"@
    ||| path == "palette"@
    ||| path == "gameoptionsData"@
    ||| path == "serverManager_currentServer"@
    ||| path == "innerNetClient.base"@
    ||| path == "playerControl_GameOptions"@
}

spec fn unbracketed(s: Seq<char>, n: nat) -> bool
    decreases n,
{
    n == 0 || (s[n - 1] != '[' && unbracketed(s, (n - 1) as nat))
}

proof fn lemma_unbracketed(s: Seq<char>, n: nat)
    requires
        unbracketed(s, n),
    ensures
        forall|i: int| 0 <= i < n ==> #[trigger] s[i] != '[',
    decreases n,
{
    if n > 0 {
        lemma_unbracketed(s, (n - 1) as nat);
    }
}

/// What does not start as the signatures' paths do is none of theirs.
proof fn lemma_no_signature(path: Seq<char>)
    requires
        path.len() >= 2,
        !(path[0] == 's' && path[1] == 'i'),
    ensures
        !occurs_at(path, "signatures."@, 0),
{
    reveal_strlit("signatures.");
    if occurs_at(path, "signatures."@, 0) {
        assert(path.subrange(0, 11)[0] == path[0]);
        assert(path.subrange(0, 11)[1] == path[1]);
    }
}

/// Slot `i` of a chain is slot 0 of another only if both are slot 0 of one chain.
proof fn lemma_slot(path: Seq<char>, chain: Seq<char>, i: int)
    requires
        forall|j: int| 0 <= j < path.len() ==> #[trigger] path[j] != '[',
        forall|j: int| 0 <= j < chain.len() ==> #[trigger] chain[j] != '[',
        0 <= i,
    ensures
        item_path(path, i) == chain + "[0]"@ <==> path == chain && i == 0,
{
    reveal_strlit("[");
    reveal_strlit("]");
    reveal_strlit("[0]");
    assert(decimal(0) =~= seq![digit(0)]);
    decimal_round_trips(i, -1, i);
    decimal_round_trips(0, -1, i);
    let a = item_path(path, i);
    let b = chain + "[0]"@;
    assert(a[path.len() as int] == '[');
    assert(b[chain.len() as int] == '[');
    if a == b {
        if path.len() < chain.len() {
            assert(b[path.len() as int] == chain[path.len() as int]);
        }
        if chain.len() < path.len() {
            assert(a[chain.len() as int] == path[chain.len() as int]);
        }
        assert(path =~= chain) by {
            assert forall|j: int| 0 <= j < path.len() implies path[j] == chain[j] by {
                assert(a[j] == path[j] && b[j] == chain[j]);
            }
        }
        assert(decimal(i) =~= seq!['0']) by {
            assert(a.len() == b.len());
            assert(a[path.len() as int + 1] == decimal(i)[0]);
            assert(b[path.len() as int + 1] == '0');
        }
        assert(digit(0) == '0');
        assert(decimal(i) == decimal(0));
    }
    if path == chain && i == 0 {
        assert(a =~= b);
    }
}

proof fn lemma_names_unbracketed()
    ensures
        forall|j: int| 0 <= j < "meetingHud"@.len() ==> #[trigger] "meetingHud"@[j] != '[',
        forall|j: int| 0 <= j < "allPlayersPtr"@.len() ==> #[trigger] "allPlayersPtr"@[j] != '[',
        forall|j: int| 0 <= j < "shipStatus"@.len() ==> #[trigger] "shipStatus"@[j] != '[',
        forall|j: int| 0 <= j < "miniGame"@.len() ==> #[trigger] "miniGame"@[j] != '[',
        forall|j: int| 0 <= j < "palette"@.len() ==> #[trigger] "palette"@[j] != '[',
        forall|j: int| 0 <= j < "gameoptionsData"@.len() ==> #[trigger] "gameoptionsData"@[j] != '[',
        forall|j: int| 0 <= j < "serverManager_currentServer"@.len() ==> #[trigger] "serverManager_currentServer"@[j] != '[',
        forall|j: int| 0 <= j < "innerNetClient.base"@.len() ==> #[trigger] "innerNetClient.base"@[j] != '[',
        forall|j: int| 0 <= j < "playerControl_GameOptions"@.len() ==> #[trigger] "playerControl_GameOptions"@[j] != '[',
{
    reveal_with_fuel(unbracketed, 30);
    reveal_strlit("meetingHud");
    lemma_unbracketed("meetingHud"@, 10);
    reveal_strlit("allPlayersPtr");
    lemma_unbracketed("allPlayersPtr"@, 13);
    reveal_strlit("shipStatus");
    lemma_unbracketed("shipStatus"@, 10);
    reveal_strlit("miniGame");
    lemma_unbracketed("miniGame"@, 8);
    reveal_strlit("palette");
    lemma_unbracketed("palette"@, 7);
    reveal_strlit("gameoptionsData");
    lemma_unbracketed("gameoptionsData"@, 15);
    reveal_strlit("serverManager_currentServer");
    lemma_unbracketed("serverManager_currentServer"@, 27);
    reveal_strlit("innerNetClient.base");
    lemma_unbracketed("innerNetClient.base"@, 19);
    reveal_strlit("playerControl_GameOptions");
    lemma_unbracketed("playerControl_GameOptions"@, 25);
}

proof fn lemma_replaced(path: Seq<char>, i: int)
    requires
        ordinary(path),
        0 <= i,
    ensures
        replaced_slot(item_path(path, i)) <==> i == 0 && is_replaced(path),
{
    lemma_names_unbracketed();
    lemma_slot(path, "meetingHud"@, i);
    lemma_slot(path, "allPlayersPtr"@, i);
    lemma_slot(path, "shipStatus"@, i);
    lemma_slot(path, "miniGame"@, i);
    lemma_slot(path, "palette"@, i);
    lemma_slot(path, "gameoptionsData"@, i);
    lemma_slot(path, "serverManager_currentServer"@, i);
    lemma_slot(path, "innerNetClient.base"@, i);
    lemma_slot(path, "playerControl_GameOptions"@, i);
}

/// The path of a number that is no item is no slot.
proof fn lemma_no_slot(path: Seq<char>)
    requires
        path.len() > 0,
        path.last() != ']',
    ensures
        !replaced_slot(path),
{
    reveal_strlit("[0]");
    assert(("meetingHud"@ + "[0]"@).last() == ']');
    assert(("allPlayersPtr"@ + "[0]"@).last() == ']');
    assert(("shipStatus"@ + "[0]"@).last() == ']');
    assert(("miniGame"@ + "[0]"@).last() == ']');
    assert(("palette"@ + "[0]"@).last() == ']');
    assert(("gameoptionsData"@ + "[0]"@).last() == ']');
    assert(("serverManager_currentServer"@ + "[0]"@).last() == ']');
    assert(("innerNetClient.base"@ + "[0]"@).last() == ']');
    assert(("playerControl_GameOptions"@ + "[0]"@).last() == ']');
}

proof fn lemma_number(path: Seq<char>, n: i64)
    requires
        ordinary(path),
        path.last() != ']',
    ensures
        clean(leaves(JsonView::Integer(n), path)) <==> plausible(n),
{
    lemma_no_signature(path);
    lemma_no_slot(path);
    lemma_clean_one((path, Some(n)));
}

proof fn lemma_flag(path: Seq<char>, b: bool)
    ensures
        clean(leaves(JsonView::Bool(b), path)),
{
    lemma_clean_one((path, None));
}

proof fn lemma_items(items: Seq<JsonView>, x: Seq<i64>, path: Seq<char>, first: int)
    requires
        ordinary(path),
        items.len() == x.len(),
        forall|i: int| 0 <= i < items.len() ==> #[trigger] items[i] == JsonView::Integer(x[i]),
        first == (if is_replaced(path) {
            1int
        } else {
            0int
        }),
    ensures
        clean(item_leaves(items, path)) <==> plausible_from(x, first),
    decreases items.len(),
{
    if items.len() > 0 {
        let last = items.len() - 1;
        let shorter = items.drop_last();
        let fewer = x.drop_last();
        assert forall|i: int| 0 <= i < shorter.len() implies #[trigger] shorter[i]
            == JsonView::Integer(fewer[i]) by {
            assert(items[i] == JsonView::Integer(x[i]));
        }
        lemma_items(shorter, fewer, path, first);
        assert(items[last] == JsonView::Integer(x[last]));
        let here = item_path(path, last);
        assert(here[0] == path[0] && here[1] == path[1]);
        lemma_no_signature(here);
        lemma_replaced(path, last);
        lemma_clean_one((here, Some(x[last])));
        assert(leaves(items.last(), here) == Seq::empty().push((here, Some(x[last]))));
        lemma_clean_add(item_leaves(shorter, path), leaves(items.last(), here));
        if plausible_from(x, first) {
            assert forall|i: int| first <= i < fewer.len() implies plausible(
                #[trigger] fewer[i],
            ) by {
                assert(plausible(x[i]));
            }
            if last >= first {
                assert(plausible(x[last]));
            }
        }
        if plausible_from(fewer, first) && (last >= first ==> plausible(x[last])) {
            assert forall|i: int| first <= i < x.len() implies plausible(#[trigger] x[i]) by {
                if i < last {
                    assert(plausible(fewer[i]));
                }
            }
        }
    } else {
        lemma_clean_one((path, None));
        assert(item_leaves(items, path) =~= Seq::empty());
    }
}

proof fn lemma_chain(path: Seq<char>, x: Seq<i64>, first: int)
    requires
        ordinary(path),
        first == (if is_replaced(path) {
            1int
        } else {
            0int
        }),
    ensures
        clean(leaves(numbers_json(x), path)) <==> plausible_from(x, first),
{
    lemma_items(numbers_json(x)->List_0, x, path, first);
}

/// Whatever stands under the signatures is no problem.
proof fn lemma_under_signatures(v: JsonView, path: Seq<char>)
    requires
        occurs_at(path, "signatures."@, 0),
    ensures
        clean(leaves(v, path)),
    decreases v,
{
    reveal_strlit("signatures.");
    match v {
        JsonView::Object(m) => {
            lemma_members_under_signatures(m, path);
        },
        JsonView::List(items) => {
            lemma_items_under_signatures(items, path);
        },
        JsonView::Integer(n) => {
            lemma_clean_one((path, Some(n)));
        },
        _ => {
            lemma_clean_one((path, None));
        },
    }
}

proof fn lemma_members_under_signatures(m: MembersView, path: Seq<char>)
    requires
        occurs_at(path, "signatures."@, 0),
    ensures
        clean(member_leaves(m, path)),
    decreases m,
{
    reveal_strlit("signatures.");
    if m.len() > 0 {
        let deeper = member_path(path, m.last().0);
        assert(deeper.subrange(0, 11) =~= path.subrange(0, 11));
        lemma_members_under_signatures(m.drop_last(), path);
        assert(decreases_to!(m => m[m.len() - 1]));
        lemma_under_signatures(m.last().1, deeper);
        lemma_clean_add(member_leaves(m.drop_last(), path), leaves(m.last().1, deeper));
    } else {
        lemma_clean_one((path, None));
    }
}

proof fn lemma_items_under_signatures(items: Seq<JsonView>, path: Seq<char>)
    requires
        occurs_at(path, "signatures."@, 0),
    ensures
        clean(item_leaves(items, path)),
    decreases items,
{
    reveal_strlit("signatures.");
    if items.len() > 0 {
        let deeper = item_path(path, items.len() - 1);
        assert(deeper.subrange(0, 11) =~= path.subrange(0, 11));
        lemma_items_under_signatures(items.drop_last(), path);
        assert(decreases_to!(items => items[items.len() - 1]));
        lemma_under_signatures(items.last(), deeper);
        lemma_clean_add(item_leaves(items.drop_last(), path), leaves(items.last(), deeper));
    } else {
        lemma_clean_one((path, None));
    }
}

proof fn lemma_all_signatures(m: MembersView)
    ensures
        clean(member_leaves(m, "signatures"@)),
    decreases m.len(),
{
    reveal_strlit("signatures");
    reveal_strlit("signatures.");
    reveal_strlit(".");
    if m.len() > 0 {
        let deeper = member_path("signatures"@, m.last().0);
        assert(deeper.subrange(0, 11) =~= "signatures."@);
        lemma_all_signatures(m.drop_last());
        lemma_under_signatures(m.last().1, deeper);
        lemma_clean_add(member_leaves(m.drop_last(), "signatures"@), leaves(m.last().1, deeper));
    } else {
        lemma_clean_one(("signatures"@, None));
    }
}

/// Of a member of a struct only its padding is a number.
proof fn lemma_layout_member(x: StructMemberView, path: Seq<char>)
    requires
        path.len() >= 2,
        !(path[0] == 's' && path[1] == 'i'),
    ensures
        clean(leaves(x.json(), path)) <==> (x.skip matches Some(n) ==> plausible(n)),
{
    reveal_strlit("skip");
    reveal_strlit(".");
    let kind = member_path(path, "type"@);
    let skip = member_path(path, "skip"@);
    let name = member_path(path, "name"@);
    let m0: MembersView = seq![("type"@, JsonView::Text(x.kind))];
    assert(m0 =~= no_members().push(("type"@, JsonView::Text(x.kind))));
    lemma_start(path);
    lemma_member(no_members(), path, "type"@, JsonView::Text(x.kind));
    lemma_clean_one((kind, None));
    lemma_clean_one((name, None));
    assert(leaves(JsonView::Text(x.kind), kind) == Seq::empty().push((kind, None::<i64>)));
    assert(leaves(JsonView::Text(x.name), name) == Seq::empty().push((name, None::<i64>)));
    match x.skip {
        Some(n) => {
            let m1 = m0.push(("skip"@, JsonView::Integer(n)));
            lemma_member(m0, path, "skip"@, JsonView::Integer(n));
            lemma_member(m1, path, "name"@, JsonView::Text(x.name));
            assert(skip[0] == path[0] && skip[1] == path[1]);
            assert(skip.last() == 'p');
            lemma_no_signature(skip);
            lemma_no_slot(skip);
            lemma_clean_one((skip, Some(n)));
            assert(leaves(JsonView::Integer(n), skip) == Seq::empty().push((skip, Some(n))));
        },
        None => {
            lemma_member(m0, path, "name"@, JsonView::Text(x.name));
        },
    }
}

proof fn lemma_layout_items(items: Seq<JsonView>, x: Seq<StructMember>, path: Seq<char>)
    requires
        path.len() >= 2,
        !(path[0] == 's' && path[1] == 'i'),
        items.len() == x.len(),
        forall|i: int| 0 <= i < items.len() ==> #[trigger] items[i] == x[i]@.json(),
    ensures
        clean(item_leaves(items, path)) <==> plausible_padding(x),
    decreases items.len(),
{
    if items.len() > 0 {
        let last = items.len() - 1;
        let shorter = items.drop_last();
        let fewer = x.drop_last();
        assert forall|i: int| 0 <= i < shorter.len() implies #[trigger] shorter[i]
            == fewer[i]@.json() by {
            assert(items[i] == x[i]@.json());
        }
        lemma_layout_items(shorter, fewer, path);
        let here = item_path(path, last);
        assert(here[0] == path[0] && here[1] == path[1]);
        assert(items[last] == x[last]@.json());
        lemma_layout_member(x[last]@, here);
        lemma_clean_add(item_leaves(shorter, path), leaves(items.last(), here));
        if plausible_padding(x) {
            assert forall|i: int| 0 <= i < fewer.len() implies ((
            #[trigger] fewer[i]).skip matches Some(n) ==> plausible(n)) by {
                assert(x[i] == fewer[i]);
            }
            assert(x[last].skip matches Some(n) ==> plausible(n));
        }
        if plausible_padding(fewer) && (x[last].skip matches Some(n) ==> plausible(n)) {
            assert forall|i: int| 0 <= i < x.len() implies ((
            #[trigger] x[i]).skip matches Some(n) ==> plausible(n)) by {
                if i < last {
                    assert(fewer[i] == x[i]);
                }
            }
        }
    } else {
        lemma_clean_one((path, None));
        assert(item_leaves(items, path) =~= Seq::empty());
    }
}

proof fn lemma_layout(path: Seq<char>, x: Seq<StructMember>)
    requires
        path.len() >= 2,
        !(path[0] == 's' && path[1] == 'i'),
    ensures
        clean(leaves(layout_json(x), path)) <==> plausible_padding(x),
{
    let items = layout_json(x)->List_0;
    assert forall|i: int| 0 <= i < items.len() implies #[trigger] items[i] == x[i]@.json() by {
        assert(layout_views(x)[i] == x[i]@);
    }
    lemma_layout_items(items, x, path);
}

/// A number by which the paths of those chains differ from all others.
spec fn mark(path: Seq<char>) -> int {
    1_000_000 * path.len() + 1_000 * (path[2] as int) + path.last() as int
}

proof fn lemma_shapes()
    ensures
        forall|path: Seq<char>| #[trigger] is_replaced(path) ==> {
            ||| mark(path) == 10101100
            ||| mark(path) == 13108114
            ||| mark(path) == 10105115
            ||| mark(path) == 8110101
            ||| mark(path) == 7108101
            ||| mark(path) == 15109097
            ||| mark(path) == 27114114
            ||| mark(path) == 19110101
            ||| mark(path) == 25097115
        },
{
    reveal_strlit("meetingHud");
    assert(mark("meetingHud"@) == 10101100);
    reveal_strlit("allPlayersPtr");
    assert(mark("allPlayersPtr"@) == 13108114);
    reveal_strlit("shipStatus");
    assert(mark("shipStatus"@) == 10105115);
    reveal_strlit("miniGame");
    assert(mark("miniGame"@) == 8110101);
    reveal_strlit("palette");
    assert(mark("palette"@) == 7108101);
    reveal_strlit("gameoptionsData");
    assert(mark("gameoptionsData"@) == 15109097);
    reveal_strlit("serverManager_currentServer");
    assert(mark("serverManager_currentServer"@) == 27114114);
    reveal_strlit("innerNetClient.base");
    assert(mark("innerNetClient.base"@) == 19110101);
    reveal_strlit("playerControl_GameOptions");
    assert(mark("playerControl_GameOptions"@) == 25097115);
}

proof fn lemma_path_meeting_hud()
    ensures
        ordinary("meetingHud"@),
        "meetingHud"@.last() != ']',
        is_replaced("meetingHud"@),
{
    reveal_with_fuel(unbracketed, 46);
    reveal_strlit("meetingHud");
    lemma_unbracketed("meetingHud"@, 10);
}

proof fn lemma_path_object_cache_ptr()
    ensures
        ordinary("objectCachePtr"@),
        "objectCachePtr"@.last() != ']',
        !is_replaced("objectCachePtr"@),
{
    reveal_with_fuel(unbracketed, 46);
    reveal_strlit("objectCachePtr");
    lemma_unbracketed("objectCachePtr"@, 14);
    lemma_shapes();
}

proof fn lemma_path_meeting_hud_state()
    ensures
        ordinary("meetingHudState"@),
        "meetingHudState"@.last() != ']',
        !is_replaced("meetingHudState"@),
{
    reveal_with_fuel(unbracketed, 46);
    reveal_strlit("meetingHudState");
    lemma_unbracketed("meetingHudState"@, 15);
    lemma_shapes();
}

proof fn lemma_path_all_players_ptr()
    ensures
        ordinary("allPlayersPtr"@),
        "allPlayersPtr"@.last() != ']',
        is_replaced("allPlayersPtr"@),
{
    reveal_with_fuel(unbracketed, 46);
    reveal_strlit("allPlayersPtr");
    lemma_unbracketed("allPlayersPtr"@, 13);
}

proof fn lemma_path_all_players()
    ensures
        ordinary("allPlayers"@),
        "allPlayers"@.last() != ']',
        !is_replaced("allPlayers"@),
{
    reveal_with_fuel(unbracketed, 46);
    reveal_strlit("allPlayers");
    lemma_unbracketed("allPlayers"@, 10);
    lemma_shapes();
}

proof fn lemma_path_player_count()
    ensures
        ordinary("playerCount"@),
        "playerCount"@.last() != ']',
        !is_replaced("playerCount"@),
{
    reveal_with_fuel(unbracketed, 46);
    reveal_strlit("playerCount");
    lemma_unbracketed("playerCount"@, 11);
    lemma_shapes();
}

proof fn lemma_path_player_addr_ptr()
    ensures
        ordinary("playerAddrPtr"@),
        "playerAddrPtr"@.last() != ']',
{
    reveal_with_fuel(unbracketed, 46);
    reveal_strlit("playerAddrPtr");
    lemma_unbracketed("playerAddrPtr"@, 13);
}

proof fn lemma_path_ship_status()
    ensures
        ordinary("shipStatus"@),
        "shipStatus"@.last() != ']',
        is_replaced("shipStatus"@),
{
    reveal_with_fuel(unbracketed, 46);
    reveal_strlit("shipStatus");
    lemma_unbracketed("shipStatus"@, 10);
}

proof fn lemma_path_ship_status_systems()
    ensures
        ordinary("shipStatus_systems"@),
        "shipStatus_systems"@.last() != ']',
        !is_replaced("shipStatus_systems"@),
{
    reveal_with_fuel(unbracketed, 46);
    reveal_strlit("shipStatus_systems");
    lemma_unbracketed("shipStatus_systems"@, 18);
    lemma_shapes();
}

proof fn lemma_path_ship_status_map()
    ensures
        ordinary("shipStatus_map"@),
        "shipStatus_map"@.last() != ']',
        !is_replaced("shipStatus_map"@),
{
    reveal_with_fuel(unbracketed, 46);
    reveal_strlit("shipStatus_map");
    lemma_unbracketed("shipStatus_map"@, 14);
    lemma_shapes();
}

proof fn lemma_path_shipstatus_all_doors()
    ensures
        ordinary("shipstatus_allDoors"@),
        "shipstatus_allDoors"@.last() != ']',
        !is_replaced("shipstatus_allDoors"@),
{
    reveal_with_fuel(unbracketed, 46);
    reveal_strlit("shipstatus_allDoors");
    lemma_unbracketed("shipstatus_allDoors"@, 19);
    lemma_shapes();
}

proof fn lemma_path_door_door_id()
    ensures
        ordinary("door_doorId"@),
        "door_doorId"@.last() != ']',
{
    reveal_with_fuel(unbracketed, 46);
    reveal_strlit("door_doorId");
    lemma_unbracketed("door_doorId"@, 11);
}

proof fn lemma_path_door_is_open()
    ensures
        ordinary("door_isOpen"@),
        "door_isOpen"@.last() != ']',
{
    reveal_with_fuel(unbracketed, 46);
    reveal_strlit("door_isOpen");
    lemma_unbracketed("door_isOpen"@, 11);
}

proof fn lemma_path_decon_door_upper_open()
    ensures
        ordinary("deconDoorUpperOpen"@),
        "deconDoorUpperOpen"@.last() != ']',
        !is_replaced("deconDoorUpperOpen"@),
{
    reveal_with_fuel(unbracketed, 46);
    reveal_strlit("deconDoorUpperOpen");
    lemma_unbracketed("deconDoorUpperOpen"@, 18);
    lemma_shapes();
}

proof fn lemma_path_decon_door_lower_open()
    ensures
        ordinary("deconDoorLowerOpen"@),
        "deconDoorLowerOpen"@.last() != ']',
        !is_replaced("deconDoorLowerOpen"@),
{
    reveal_with_fuel(unbracketed, 46);
    reveal_strlit("deconDoorLowerOpen");
    lemma_unbracketed("deconDoorLowerOpen"@, 18);
    lemma_shapes();
}

proof fn lemma_path_hq_hud_system_type_completed_consoles()
    ensures
        ordinary("hqHudSystemType_CompletedConsoles"@),
        "hqHudSystemType_CompletedConsoles"@.last() != ']',
        !is_replaced("hqHudSystemType_CompletedConsoles"@),
{
    reveal_with_fuel(unbracketed, 46);
    reveal_strlit("hqHudSystemType_CompletedConsoles");
    lemma_unbracketed("hqHudSystemType_CompletedConsoles"@, 33);
    lemma_shapes();
}

proof fn lemma_path_hud_override_system_type_is_active()
    ensures
        ordinary("HudOverrideSystemType_isActive"@),
        "HudOverrideSystemType_isActive"@.last() != ']',
        !is_replaced("HudOverrideSystemType_isActive"@),
{
    reveal_with_fuel(unbracketed, 46);
    reveal_strlit("HudOverrideSystemType_isActive");
    lemma_unbracketed("HudOverrideSystemType_isActive"@, 30);
    lemma_shapes();
}

proof fn lemma_path_mini_game()
    ensures
        ordinary("miniGame"@),
        "miniGame"@.last() != ']',
        is_replaced("miniGame"@),
{
    reveal_with_fuel(unbracketed, 46);
    reveal_strlit("miniGame");
    lemma_unbracketed("miniGame"@, 8);
}

proof fn lemma_path_planet_surveillance_minigame_current_camera()
    ensures
        ordinary("planetSurveillanceMinigame_currentCamera"@),
        "planetSurveillanceMinigame_currentCamera"@.last() != ']',
        !is_replaced("planetSurveillanceMinigame_currentCamera"@),
{
    reveal_with_fuel(unbracketed, 46);
    reveal_strlit("planetSurveillanceMinigame_currentCamera");
    lemma_unbracketed("planetSurveillanceMinigame_currentCamera"@, 40);
    lemma_shapes();
}

proof fn lemma_path_planet_surveillance_minigame_camaras_count()
    ensures
        ordinary("planetSurveillanceMinigame_camarasCount"@),
        "planetSurveillanceMinigame_camarasCount"@.last() != ']',
        !is_replaced("planetSurveillanceMinigame_camarasCount"@),
{
    reveal_with_fuel(unbracketed, 46);
    reveal_strlit("planetSurveillanceMinigame_camarasCount");
    lemma_unbracketed("planetSurveillanceMinigame_camarasCount"@, 39);
    lemma_shapes();
}

proof fn lemma_path_surveillance_minigame_filtered_rooms_count()
    ensures
        ordinary("surveillanceMinigame_FilteredRoomsCount"@),
        "surveillanceMinigame_FilteredRoomsCount"@.last() != ']',
        !is_replaced("surveillanceMinigame_FilteredRoomsCount"@),
{
    reveal_with_fuel(unbracketed, 46);
    reveal_strlit("surveillanceMinigame_FilteredRoomsCount");
    lemma_unbracketed("surveillanceMinigame_FilteredRoomsCount"@, 39);
    lemma_shapes();
}

proof fn lemma_path_light_radius()
    ensures
        ordinary("lightRadius"@),
        "lightRadius"@.last() != ']',
        !is_replaced("lightRadius"@),
{
    reveal_with_fuel(unbracketed, 46);
    reveal_strlit("lightRadius");
    lemma_unbracketed("lightRadius"@, 11);
    lemma_shapes();
}

proof fn lemma_path_palette()
    ensures
        ordinary("palette"@),
        "palette"@.last() != ']',
        is_replaced("palette"@),
{
    reveal_with_fuel(unbracketed, 46);
    reveal_strlit("palette");
    lemma_unbracketed("palette"@, 7);
}

proof fn lemma_path_palette_playercolor()
    ensures
        ordinary("palette_playercolor"@),
        "palette_playercolor"@.last() != ']',
        !is_replaced("palette_playercolor"@),
{
    reveal_with_fuel(unbracketed, 46);
    reveal_strlit("palette_playercolor");
    lemma_unbracketed("palette_playercolor"@, 19);
    lemma_shapes();
}

proof fn lemma_path_palette_shadow_color()
    ensures
        ordinary("palette_shadowColor"@),
        "palette_shadowColor"@.last() != ']',
        !is_replaced("palette_shadowColor"@),
{
    reveal_with_fuel(unbracketed, 46);
    reveal_strlit("palette_shadowColor");
    lemma_unbracketed("palette_shadowColor"@, 19);
    lemma_shapes();
}

proof fn lemma_path_player_control_game_options()
    ensures
        ordinary("playerControl_GameOptions"@),
        "playerControl_GameOptions"@.last() != ']',
        is_replaced("playerControl_GameOptions"@),
{
    reveal_with_fuel(unbracketed, 46);
    reveal_strlit("playerControl_GameOptions");
    lemma_unbracketed("playerControl_GameOptions"@, 25);
}

proof fn lemma_path_gameoptions_data()
    ensures
        ordinary("gameoptionsData"@),
        "gameoptionsData"@.last() != ']',
        is_replaced("gameoptionsData"@),
{
    reveal_with_fuel(unbracketed, 46);
    reveal_strlit("gameoptionsData");
    lemma_unbracketed("gameoptionsData"@, 15);
}

proof fn lemma_path_game_options_map_id()
    ensures
        ordinary("gameOptions_MapId"@),
        "gameOptions_MapId"@.last() != ']',
        !is_replaced("gameOptions_MapId"@),
{
    reveal_with_fuel(unbracketed, 46);
    reveal_strlit("gameOptions_MapId");
    lemma_unbracketed("gameOptions_MapId"@, 17);
    lemma_shapes();
}

proof fn lemma_path_game_options_max_p_layers()
    ensures
        ordinary("gameOptions_MaxPLayers"@),
        "gameOptions_MaxPLayers"@.last() != ']',
        !is_replaced("gameOptions_MaxPLayers"@),
{
    reveal_with_fuel(unbracketed, 46);
    reveal_strlit("gameOptions_MaxPLayers");
    lemma_unbracketed("gameOptions_MaxPLayers"@, 22);
    lemma_shapes();
}

proof fn lemma_path_server_manager_current_server()
    ensures
        ordinary("serverManager_currentServer"@),
        "serverManager_currentServer"@.last() != ']',
        is_replaced("serverManager_currentServer"@),
{
    reveal_with_fuel(unbracketed, 46);
    reveal_strlit("serverManager_currentServer");
    lemma_unbracketed("serverManager_currentServer"@, 27);
}

proof fn lemma_path_connect_func()
    ensures
        ordinary("connectFunc"@),
        "connectFunc"@.last() != ']',
{
    reveal_with_fuel(unbracketed, 46);
    reveal_strlit("connectFunc");
    lemma_unbracketed("connectFunc"@, 11);
}

proof fn lemma_path_show_mod_stamp_func()
    ensures
        ordinary("showModStampFunc"@),
        "showModStampFunc"@.last() != ']',
{
    reveal_with_fuel(unbracketed, 46);
    reveal_strlit("showModStampFunc");
    lemma_unbracketed("showModStampFunc"@, 16);
}

proof fn lemma_path_mod_late_update_func()
    ensures
        ordinary("modLateUpdateFunc"@),
        "modLateUpdateFunc"@.last() != ']',
{
    reveal_with_fuel(unbracketed, 46);
    reveal_strlit("modLateUpdateFunc");
    lemma_unbracketed("modLateUpdateFunc"@, 17);
}

proof fn lemma_path_fixed_update_func()
    ensures
        ordinary("fixedUpdateFunc"@),
        "fixedUpdateFunc"@.last() != ']',
{
    reveal_with_fuel(unbracketed, 46);
    reveal_strlit("fixedUpdateFunc");
    lemma_unbracketed("fixedUpdateFunc"@, 15);
}

proof fn lemma_path_ping_message_string()
    ensures
        ordinary("pingMessageString"@),
        "pingMessageString"@.last() != ']',
{
    reveal_with_fuel(unbracketed, 46);
    reveal_strlit("pingMessageString");
    lemma_unbracketed("pingMessageString"@, 17);
}

proof fn lemma_path_inner_net_client_base()
    ensures
        ordinary("innerNetClient.base"@),
        "innerNetClient.base"@.last() != ']',
        is_replaced("innerNetClient.base"@),
{
    reveal_with_fuel(unbracketed, 46);
    reveal_strlit("innerNetClient.base");
    lemma_unbracketed("innerNetClient.base"@, 19);
}

proof fn lemma_path_inner_net_client_network_address()
    ensures
        ordinary("innerNetClient.networkAddress"@),
        "innerNetClient.networkAddress"@.last() != ']',
{
    reveal_with_fuel(unbracketed, 46);
    reveal_strlit("innerNetClient.networkAddress");
    lemma_unbracketed("innerNetClient.networkAddress"@, 29);
}

proof fn lemma_path_inner_net_client_network_port()
    ensures
        ordinary("innerNetClient.networkPort"@),
        "innerNetClient.networkPort"@.last() != ']',
{
    reveal_with_fuel(unbracketed, 46);
    reveal_strlit("innerNetClient.networkPort");
    lemma_unbracketed("innerNetClient.networkPort"@, 26);
}

proof fn lemma_path_inner_net_client_game_mode()
    ensures
        ordinary("innerNetClient.gameMode"@),
        "innerNetClient.gameMode"@.last() != ']',
{
    reveal_with_fuel(unbracketed, 46);
    reveal_strlit("innerNetClient.gameMode");
    lemma_unbracketed("innerNetClient.gameMode"@, 23);
}

proof fn lemma_path_inner_net_client_game_id()
    ensures
        ordinary("innerNetClient.gameId"@),
        "innerNetClient.gameId"@.last() != ']',
{
    reveal_with_fuel(unbracketed, 46);
    reveal_strlit("innerNetClient.gameId");
    lemma_unbracketed("innerNetClient.gameId"@, 21);
}

proof fn lemma_path_inner_net_client_host_id()
    ensures
        ordinary("innerNetClient.hostId"@),
        "innerNetClient.hostId"@.last() != ']',
{
    reveal_with_fuel(unbracketed, 46);
    reveal_strlit("innerNetClient.hostId");
    lemma_unbracketed("innerNetClient.hostId"@, 21);
}

proof fn lemma_path_inner_net_client_client_id()
    ensures
        ordinary("innerNetClient.clientId"@),
        "innerNetClient.clientId"@.last() != ']',
{
    reveal_with_fuel(unbracketed, 46);
    reveal_strlit("innerNetClient.clientId");
    lemma_unbracketed("innerNetClient.clientId"@, 23);
}

proof fn lemma_path_inner_net_client_game_state()
    ensures
        ordinary("innerNetClient.gameState"@),
        "innerNetClient.gameState"@.last() != ']',
{
    reveal_with_fuel(unbracketed, 46);
    reveal_strlit("innerNetClient.gameState");
    lemma_unbracketed("innerNetClient.gameState"@, 24);
}

proof fn lemma_path_inner_net_client_online_scene()
    ensures
        ordinary("innerNetClient.onlineScene"@),
        "innerNetClient.onlineScene"@.last() != ']',
{
    reveal_with_fuel(unbracketed, 46);
    reveal_strlit("innerNetClient.onlineScene");
    lemma_unbracketed("innerNetClient.onlineScene"@, 26);
}

proof fn lemma_path_inner_net_client_main_menu_scene()
    ensures
        ordinary("innerNetClient.mainMenuScene"@),
        "innerNetClient.mainMenuScene"@.last() != ']',
{
    reveal_with_fuel(unbracketed, 46);
    reveal_strlit("innerNetClient.mainMenuScene");
    lemma_unbracketed("innerNetClient.mainMenuScene"@, 28);
}

proof fn lemma_path_player_is_dummy()
    ensures
        ordinary("player.isDummy"@),
        "player.isDummy"@.last() != ']',
        !is_replaced("player.isDummy"@),
{
    reveal_with_fuel(unbracketed, 46);
    reveal_strlit("player.isDummy");
    lemma_unbracketed("player.isDummy"@, 14);
    lemma_shapes();
}

proof fn lemma_path_player_is_local()
    ensures
        ordinary("player.isLocal"@),
        "player.isLocal"@.last() != ']',
        !is_replaced("player.isLocal"@),
{
    reveal_with_fuel(unbracketed, 46);
    reveal_strlit("player.isLocal");
    lemma_unbracketed("player.isLocal"@, 14);
    lemma_shapes();
}

proof fn lemma_path_player_local_x()
    ensures
        ordinary("player.localX"@),
        "player.localX"@.last() != ']',
        !is_replaced("player.localX"@),
{
    reveal_with_fuel(unbracketed, 46);
    reveal_strlit("player.localX");
    lemma_unbracketed("player.localX"@, 13);
    lemma_shapes();
}

proof fn lemma_path_player_local_y()
    ensures
        ordinary("player.localY"@),
        "player.localY"@.last() != ']',
        !is_replaced("player.localY"@),
{
    reveal_with_fuel(unbracketed, 46);
    reveal_strlit("player.localY");
    lemma_unbracketed("player.localY"@, 13);
    lemma_shapes();
}

proof fn lemma_path_player_remote_x()
    ensures
        ordinary("player.remoteX"@),
        "player.remoteX"@.last() != ']',
        !is_replaced("player.remoteX"@),
{
    reveal_with_fuel(unbracketed, 46);
    reveal_strlit("player.remoteX");
    lemma_unbracketed("player.remoteX"@, 14);
    lemma_shapes();
}

proof fn lemma_path_player_remote_y()
    ensures
        ordinary("player.remoteY"@),
        "player.remoteY"@.last() != ']',
        !is_replaced("player.remoteY"@),
{
    reveal_with_fuel(unbracketed, 46);
    reveal_strlit("player.remoteY");
    lemma_unbracketed("player.remoteY"@, 14);
    lemma_shapes();
}

proof fn lemma_path_player_buffer_length()
    ensures
        ordinary("player.bufferLength"@),
        "player.bufferLength"@.last() != ']',
{
    reveal_with_fuel(unbracketed, 46);
    reveal_strlit("player.bufferLength");
    lemma_unbracketed("player.bufferLength"@, 19);
}

proof fn lemma_path_player_offsets()
    ensures
        ordinary("player.offsets"@),
        "player.offsets"@.last() != ']',
        !is_replaced("player.offsets"@),
{
    reveal_with_fuel(unbracketed, 46);
    reveal_strlit("player.offsets");
    lemma_unbracketed("player.offsets"@, 14);
    lemma_shapes();
}

proof fn lemma_path_player_in_vent()
    ensures
        ordinary("player.inVent"@),
        "player.inVent"@.last() != ']',
        !is_replaced("player.inVent"@),
{
    reveal_with_fuel(unbracketed, 46);
    reveal_strlit("player.inVent");
    lemma_unbracketed("player.inVent"@, 13);
    lemma_shapes();
}

proof fn lemma_path_player_client_id()
    ensures
        ordinary("player.clientId"@),
        "player.clientId"@.last() != ']',
        !is_replaced("player.clientId"@),
{
    reveal_with_fuel(unbracketed, 46);
    reveal_strlit("player.clientId");
    lemma_unbracketed("player.clientId"@, 15);
    lemma_shapes();
}

proof fn lemma_path_player_current_outfit()
    ensures
        ordinary("player.currentOutfit"@),
        "player.currentOutfit"@.last() != ']',
        !is_replaced("player.currentOutfit"@),
{
    reveal_with_fuel(unbracketed, 46);
    reveal_strlit("player.currentOutfit");
    lemma_unbracketed("player.currentOutfit"@, 20);
    lemma_shapes();
}

proof fn lemma_path_player_role_team()
    ensures
        ordinary("player.roleTeam"@),
        "player.roleTeam"@.last() != ']',
        !is_replaced("player.roleTeam"@),
{
    reveal_with_fuel(unbracketed, 46);
    reveal_strlit("player.roleTeam");
    lemma_unbracketed("player.roleTeam"@, 15);
    lemma_shapes();
}

proof fn lemma_path_player_name_text()
    ensures
        ordinary("player.nameText"@),
        "player.nameText"@.last() != ']',
        !is_replaced("player.nameText"@),
{
    reveal_with_fuel(unbracketed, 46);
    reveal_strlit("player.nameText");
    lemma_unbracketed("player.nameText"@, 15);
    lemma_shapes();
}

proof fn lemma_path_player_outfit_color_id()
    ensures
        ordinary("player.outfit.colorId"@),
        "player.outfit.colorId"@.last() != ']',
        !is_replaced("player.outfit.colorId"@),
{
    reveal_with_fuel(unbracketed, 46);
    reveal_strlit("player.outfit.colorId");
    lemma_unbracketed("player.outfit.colorId"@, 21);
    lemma_shapes();
}

proof fn lemma_path_player_outfit_hat_id()
    ensures
        ordinary("player.outfit.hatId"@),
        "player.outfit.hatId"@.last() != ']',
        !is_replaced("player.outfit.hatId"@),
{
    reveal_with_fuel(unbracketed, 46);
    reveal_strlit("player.outfit.hatId");
    lemma_unbracketed("player.outfit.hatId"@, 19);
    lemma_shapes();
}

proof fn lemma_path_player_outfit_skin_id()
    ensures
        ordinary("player.outfit.skinId"@),
        "player.outfit.skinId"@.last() != ']',
        !is_replaced("player.outfit.skinId"@),
{
    reveal_with_fuel(unbracketed, 46);
    reveal_strlit("player.outfit.skinId");
    lemma_unbracketed("player.outfit.skinId"@, 20);
    lemma_shapes();
}

proof fn lemma_path_player_outfit_visor_id()
    ensures
        ordinary("player.outfit.visorId"@),
        "player.outfit.visorId"@.last() != ']',
        !is_replaced("player.outfit.visorId"@),
{
    reveal_with_fuel(unbracketed, 46);
    reveal_strlit("player.outfit.visorId");
    lemma_unbracketed("player.outfit.visorId"@, 21);
    lemma_shapes();
}

proof fn lemma_path_player_outfit_player_name()
    ensures
        ordinary("player.outfit.playerName"@),
        "player.outfit.playerName"@.last() != ']',
        !is_replaced("player.outfit.playerName"@),
{
    reveal_with_fuel(unbracketed, 46);
    reveal_strlit("player.outfit.playerName");
    lemma_unbracketed("player.outfit.playerName"@, 24);
    lemma_shapes();
}

#[verifier::rlimit(40)]
proof fn lemma_outfit(f: Outfit)
    ensures
        clean(leaves(f.json(), "player.outfit"@)) <==> outfit_plausible(f),
{
    reveal_strlit("player.outfit");
    reveal_strlit(".");
    let path = "player.outfit"@;
    let m = no_members();
    lemma_start(path);
    lemma_path_player_outfit_color_id();
    reveal_strlit("colorId");
    reveal_strlit("player.outfit.colorId");
    assert(member_path(path, "colorId"@) =~= "player.outfit.colorId"@);
    lemma_chain("player.outfit.colorId"@, f.color_id@, 0);
    lemma_member(m, path, "colorId"@, numbers_json(f.color_id@));
    let m = m.push(("colorId"@, numbers_json(f.color_id@)));
    lemma_path_player_outfit_hat_id();
    reveal_strlit("hatId");
    reveal_strlit("player.outfit.hatId");
    assert(member_path(path, "hatId"@) =~= "player.outfit.hatId"@);
    lemma_chain("player.outfit.hatId"@, f.hat_id@, 0);
    lemma_member(m, path, "hatId"@, numbers_json(f.hat_id@));
    let m = m.push(("hatId"@, numbers_json(f.hat_id@)));
    lemma_path_player_outfit_skin_id();
    reveal_strlit("skinId");
    reveal_strlit("player.outfit.skinId");
    assert(member_path(path, "skinId"@) =~= "player.outfit.skinId"@);
    lemma_chain("player.outfit.skinId"@, f.skin_id@, 0);
    lemma_member(m, path, "skinId"@, numbers_json(f.skin_id@));
    let m = m.push(("skinId"@, numbers_json(f.skin_id@)));
    lemma_path_player_outfit_visor_id();
    reveal_strlit("visorId");
    reveal_strlit("player.outfit.visorId");
    assert(member_path(path, "visorId"@) =~= "player.outfit.visorId"@);
    lemma_chain("player.outfit.visorId"@, f.visor_id@, 0);
    lemma_member(m, path, "visorId"@, numbers_json(f.visor_id@));
    let m = m.push(("visorId"@, numbers_json(f.visor_id@)));
    lemma_path_player_outfit_player_name();
    reveal_strlit("playerName");
    reveal_strlit("player.outfit.playerName");
    assert(member_path(path, "playerName"@) =~= "player.outfit.playerName"@);
    lemma_chain("player.outfit.playerName"@, f.player_name@, 0);
    lemma_member(m, path, "playerName"@, numbers_json(f.player_name@));
    let m = m.push(("playerName"@, numbers_json(f.player_name@)));
    assert(f.json() == JsonView::Object(m));
}

#[verifier::rlimit(40)]
proof fn lemma_player(p: Player)
    ensures
        clean(leaves(p.json(), "player"@)) <==> player_plausible(p),
{
    reveal_strlit("player");
    reveal_strlit(".");
    let path = "player"@;
    let m = no_members();
    lemma_start(path);
    lemma_layout(member_path(path, "struct"@), p.struct_layout@);
    lemma_member(m, path, "struct"@, layout_json(p.struct_layout@));
    let m = m.push(("struct"@, layout_json(p.struct_layout@)));
    lemma_path_player_is_dummy();
    reveal_strlit("isDummy");
    reveal_strlit("player.isDummy");
    assert(member_path(path, "isDummy"@) =~= "player.isDummy"@);
    lemma_chain("player.isDummy"@, p.is_dummy@, 0);
    lemma_member(m, path, "isDummy"@, numbers_json(p.is_dummy@));
    let m = m.push(("isDummy"@, numbers_json(p.is_dummy@)));
    lemma_path_player_is_local();
    reveal_strlit("isLocal");
    reveal_strlit("player.isLocal");
    assert(member_path(path, "isLocal"@) =~= "player.isLocal"@);
    lemma_chain("player.isLocal"@, p.is_local@, 0);
    lemma_member(m, path, "isLocal"@, numbers_json(p.is_local@));
    let m = m.push(("isLocal"@, numbers_json(p.is_local@)));
    lemma_path_player_local_x();
    reveal_strlit("localX");
    reveal_strlit("player.localX");
    assert(member_path(path, "localX"@) =~= "player.localX"@);
    lemma_chain("player.localX"@, p.local_x@, 0);
    lemma_member(m, path, "localX"@, numbers_json(p.local_x@));
    let m = m.push(("localX"@, numbers_json(p.local_x@)));
    lemma_path_player_local_y();
    reveal_strlit("localY");
    reveal_strlit("player.localY");
    assert(member_path(path, "localY"@) =~= "player.localY"@);
    lemma_chain("player.localY"@, p.local_y@, 0);
    lemma_member(m, path, "localY"@, numbers_json(p.local_y@));
    let m = m.push(("localY"@, numbers_json(p.local_y@)));
    lemma_path_player_remote_x();
    reveal_strlit("remoteX");
    reveal_strlit("player.remoteX");
    assert(member_path(path, "remoteX"@) =~= "player.remoteX"@);
    lemma_chain("player.remoteX"@, p.remote_x@, 0);
    lemma_member(m, path, "remoteX"@, numbers_json(p.remote_x@));
    let m = m.push(("remoteX"@, numbers_json(p.remote_x@)));
    lemma_path_player_remote_y();
    reveal_strlit("remoteY");
    reveal_strlit("player.remoteY");
    assert(member_path(path, "remoteY"@) =~= "player.remoteY"@);
    lemma_chain("player.remoteY"@, p.remote_y@, 0);
    lemma_member(m, path, "remoteY"@, numbers_json(p.remote_y@));
    let m = m.push(("remoteY"@, numbers_json(p.remote_y@)));
    lemma_path_player_buffer_length();
    reveal_strlit("bufferLength");
    reveal_strlit("player.bufferLength");
    assert(member_path(path, "bufferLength"@) =~= "player.bufferLength"@);
    lemma_number("player.bufferLength"@, p.buffer_length);
    lemma_member(m, path, "bufferLength"@, JsonView::Integer(p.buffer_length));
    let m = m.push(("bufferLength"@, JsonView::Integer(p.buffer_length)));
    lemma_path_player_offsets();
    reveal_strlit("offsets");
    reveal_strlit("player.offsets");
    assert(member_path(path, "offsets"@) =~= "player.offsets"@);
    lemma_chain("player.offsets"@, p.offsets@, 0);
    lemma_member(m, path, "offsets"@, numbers_json(p.offsets@));
    let m = m.push(("offsets"@, numbers_json(p.offsets@)));
    lemma_path_player_in_vent();
    reveal_strlit("inVent");
    reveal_strlit("player.inVent");
    assert(member_path(path, "inVent"@) =~= "player.inVent"@);
    lemma_chain("player.inVent"@, p.in_vent@, 0);
    lemma_member(m, path, "inVent"@, numbers_json(p.in_vent@));
    let m = m.push(("inVent"@, numbers_json(p.in_vent@)));
    lemma_path_player_client_id();
    reveal_strlit("clientId");
    reveal_strlit("player.clientId");
    assert(member_path(path, "clientId"@) =~= "player.clientId"@);
    lemma_chain("player.clientId"@, p.client_id@, 0);
    lemma_member(m, path, "clientId"@, numbers_json(p.client_id@));
    let m = m.push(("clientId"@, numbers_json(p.client_id@)));
    lemma_path_player_current_outfit();
    reveal_strlit("currentOutfit");
    reveal_strlit("player.currentOutfit");
    assert(member_path(path, "currentOutfit"@) =~= "player.currentOutfit"@);
    lemma_chain("player.currentOutfit"@, p.current_outfit@, 0);
    lemma_member(m, path, "currentOutfit"@, numbers_json(p.current_outfit@));
    let m = m.push(("currentOutfit"@, numbers_json(p.current_outfit@)));
    lemma_path_player_role_team();
    reveal_strlit("roleTeam");
    reveal_strlit("player.roleTeam");
    assert(member_path(path, "roleTeam"@) =~= "player.roleTeam"@);
    lemma_chain("player.roleTeam"@, p.role_team@, 0);
    lemma_member(m, path, "roleTeam"@, numbers_json(p.role_team@));
    let m = m.push(("roleTeam"@, numbers_json(p.role_team@)));
    lemma_path_player_name_text();
    reveal_strlit("nameText");
    reveal_strlit("player.nameText");
    assert(member_path(path, "nameText"@) =~= "player.nameText"@);
    lemma_chain("player.nameText"@, p.name_text@, 0);
    lemma_member(m, path, "nameText"@, numbers_json(p.name_text@));
    let m = m.push(("nameText"@, numbers_json(p.name_text@)));
    reveal_strlit("outfit");
    reveal_strlit("player.outfit");
    assert(member_path(path, "outfit"@) =~= "player.outfit"@);
    lemma_outfit(p.outfit);
    lemma_member(m, path, "outfit"@, p.outfit.json());
    let m = m.push(("outfit"@, p.outfit.json()));
    assert(p.json() == JsonView::Object(m));
}

#[verifier::rlimit(40)]
proof fn lemma_client(c: InnerNetClient)
    ensures
        clean(leaves(c.json(), "innerNetClient"@)) <==> client_plausible(c),
{
    reveal_strlit("innerNetClient");
    reveal_strlit(".");
    let path = "innerNetClient"@;
    let m = no_members();
    lemma_start(path);
    lemma_path_inner_net_client_base();
    reveal_strlit("base");
    reveal_strlit("innerNetClient.base");
    assert(member_path(path, "base"@) =~= "innerNetClient.base"@);
    lemma_chain("innerNetClient.base"@, c.base@, 1);
    lemma_member(m, path, "base"@, numbers_json(c.base@));
    let m = m.push(("base"@, numbers_json(c.base@)));
    lemma_path_inner_net_client_network_address();
    reveal_strlit("networkAddress");
    reveal_strlit("innerNetClient.networkAddress");
    assert(member_path(path, "networkAddress"@) =~= "innerNetClient.networkAddress"@);
    lemma_number("innerNetClient.networkAddress"@, c.network_address);
    lemma_member(m, path, "networkAddress"@, JsonView::Integer(c.network_address));
    let m = m.push(("networkAddress"@, JsonView::Integer(c.network_address)));
    lemma_path_inner_net_client_network_port();
    reveal_strlit("networkPort");
    reveal_strlit("innerNetClient.networkPort");
    assert(member_path(path, "networkPort"@) =~= "innerNetClient.networkPort"@);
    lemma_number("innerNetClient.networkPort"@, c.network_port);
    lemma_member(m, path, "networkPort"@, JsonView::Integer(c.network_port));
    let m = m.push(("networkPort"@, JsonView::Integer(c.network_port)));
    lemma_path_inner_net_client_game_mode();
    reveal_strlit("gameMode");
    reveal_strlit("innerNetClient.gameMode");
    assert(member_path(path, "gameMode"@) =~= "innerNetClient.gameMode"@);
    lemma_number("innerNetClient.gameMode"@, c.game_mode);
    lemma_member(m, path, "gameMode"@, JsonView::Integer(c.game_mode));
    let m = m.push(("gameMode"@, JsonView::Integer(c.game_mode)));
    lemma_path_inner_net_client_game_id();
    reveal_strlit("gameId");
    reveal_strlit("innerNetClient.gameId");
    assert(member_path(path, "gameId"@) =~= "innerNetClient.gameId"@);
    lemma_number("innerNetClient.gameId"@, c.game_id);
    lemma_member(m, path, "gameId"@, JsonView::Integer(c.game_id));
    let m = m.push(("gameId"@, JsonView::Integer(c.game_id)));
    lemma_path_inner_net_client_host_id();
    reveal_strlit("hostId");
    reveal_strlit("innerNetClient.hostId");
    assert(member_path(path, "hostId"@) =~= "innerNetClient.hostId"@);
    lemma_number("innerNetClient.hostId"@, c.host_id);
    lemma_member(m, path, "hostId"@, JsonView::Integer(c.host_id));
    let m = m.push(("hostId"@, JsonView::Integer(c.host_id)));
    lemma_path_inner_net_client_client_id();
    reveal_strlit("clientId");
    reveal_strlit("innerNetClient.clientId");
    assert(member_path(path, "clientId"@) =~= "innerNetClient.clientId"@);
    lemma_number("innerNetClient.clientId"@, c.client_id);
    lemma_member(m, path, "clientId"@, JsonView::Integer(c.client_id));
    let m = m.push(("clientId"@, JsonView::Integer(c.client_id)));
    lemma_path_inner_net_client_game_state();
    reveal_strlit("gameState");
    reveal_strlit("innerNetClient.gameState");
    assert(member_path(path, "gameState"@) =~= "innerNetClient.gameState"@);
    lemma_number("innerNetClient.gameState"@, c.game_state);
    lemma_member(m, path, "gameState"@, JsonView::Integer(c.game_state));
    let m = m.push(("gameState"@, JsonView::Integer(c.game_state)));
    lemma_path_inner_net_client_online_scene();
    reveal_strlit("onlineScene");
    reveal_strlit("innerNetClient.onlineScene");
    assert(member_path(path, "onlineScene"@) =~= "innerNetClient.onlineScene"@);
    lemma_number("innerNetClient.onlineScene"@, c.online_scene);
    lemma_member(m, path, "onlineScene"@, JsonView::Integer(c.online_scene));
    let m = m.push(("onlineScene"@, JsonView::Integer(c.online_scene)));
    lemma_path_inner_net_client_main_menu_scene();
    reveal_strlit("mainMenuScene");
    reveal_strlit("innerNetClient.mainMenuScene");
    assert(member_path(path, "mainMenuScene"@) =~= "innerNetClient.mainMenuScene"@);
    lemma_number("innerNetClient.mainMenuScene"@, c.main_menu_scene);
    lemma_member(m, path, "mainMenuScene"@, JsonView::Integer(c.main_menu_scene));
    let m = m.push(("mainMenuScene"@, JsonView::Integer(c.main_menu_scene)));
    assert(c.json() == JsonView::Object(m));
}

/// Nothing is wrong with the numbers of a file if and only if all that count are
/// plausible: none negative, none past any offset that a field can have.
#[verifier::rlimit(60)]
pub proof fn numbers_pass_exactly_if_they_are_plausible(o: Offsets)
    ensures
        leaf_problems(file_leaves(o)).len() == 0 <==> numbers_plausible(o),
{
    reveal(clean);
    let path: Seq<char> = Seq::empty();
    let m = no_members();
    lemma_start(path);
    lemma_path_meeting_hud();
    lemma_chain("meetingHud"@, o.meeting_hud@, 1);
    lemma_member(m, path, "meetingHud"@, numbers_json(o.meeting_hud@));
    let m = m.push(("meetingHud"@, numbers_json(o.meeting_hud@)));
    lemma_path_object_cache_ptr();
    lemma_chain("objectCachePtr"@, o.object_cache_ptr@, 0);
    lemma_member(m, path, "objectCachePtr"@, numbers_json(o.object_cache_ptr@));
    let m = m.push(("objectCachePtr"@, numbers_json(o.object_cache_ptr@)));
    lemma_path_meeting_hud_state();
    lemma_chain("meetingHudState"@, o.meeting_hud_state@, 0);
    lemma_member(m, path, "meetingHudState"@, numbers_json(o.meeting_hud_state@));
    let m = m.push(("meetingHudState"@, numbers_json(o.meeting_hud_state@)));
    lemma_path_all_players_ptr();
    lemma_chain("allPlayersPtr"@, o.all_players_ptr@, 1);
    lemma_member(m, path, "allPlayersPtr"@, numbers_json(o.all_players_ptr@));
    let m = m.push(("allPlayersPtr"@, numbers_json(o.all_players_ptr@)));
    lemma_path_all_players();
    lemma_chain("allPlayers"@, o.all_players@, 0);
    lemma_member(m, path, "allPlayers"@, numbers_json(o.all_players@));
    let m = m.push(("allPlayers"@, numbers_json(o.all_players@)));
    lemma_path_player_count();
    lemma_chain("playerCount"@, o.player_count@, 0);
    lemma_member(m, path, "playerCount"@, numbers_json(o.player_count@));
    let m = m.push(("playerCount"@, numbers_json(o.player_count@)));
    lemma_path_player_addr_ptr();
    lemma_number("playerAddrPtr"@, o.player_addr_ptr);
    lemma_member(m, path, "playerAddrPtr"@, JsonView::Integer(o.player_addr_ptr));
    let m = m.push(("playerAddrPtr"@, JsonView::Integer(o.player_addr_ptr)));
    lemma_path_ship_status();
    lemma_chain("shipStatus"@, o.ship_status@, 1);
    lemma_member(m, path, "shipStatus"@, numbers_json(o.ship_status@));
    let m = m.push(("shipStatus"@, numbers_json(o.ship_status@)));
    lemma_path_ship_status_systems();
    lemma_chain("shipStatus_systems"@, o.ship_status_systems@, 0);
    lemma_member(m, path, "shipStatus_systems"@, numbers_json(o.ship_status_systems@));
    let m = m.push(("shipStatus_systems"@, numbers_json(o.ship_status_systems@)));
    lemma_path_ship_status_map();
    lemma_chain("shipStatus_map"@, o.ship_status_map@, 0);
    lemma_member(m, path, "shipStatus_map"@, numbers_json(o.ship_status_map@));
    let m = m.push(("shipStatus_map"@, numbers_json(o.ship_status_map@)));
    lemma_path_shipstatus_all_doors();
    lemma_chain("shipstatus_allDoors"@, o.shipstatus_all_doors@, 0);
    lemma_member(m, path, "shipstatus_allDoors"@, numbers_json(o.shipstatus_all_doors@));
    let m = m.push(("shipstatus_allDoors"@, numbers_json(o.shipstatus_all_doors@)));
    lemma_path_door_door_id();
    lemma_number("door_doorId"@, o.door_door_id);
    lemma_member(m, path, "door_doorId"@, JsonView::Integer(o.door_door_id));
    let m = m.push(("door_doorId"@, JsonView::Integer(o.door_door_id)));
    lemma_path_door_is_open();
    lemma_number("door_isOpen"@, o.door_is_open);
    lemma_member(m, path, "door_isOpen"@, JsonView::Integer(o.door_is_open));
    let m = m.push(("door_isOpen"@, JsonView::Integer(o.door_is_open)));
    lemma_path_decon_door_upper_open();
    lemma_chain("deconDoorUpperOpen"@, o.decon_door_upper_open@, 0);
    lemma_member(m, path, "deconDoorUpperOpen"@, numbers_json(o.decon_door_upper_open@));
    let m = m.push(("deconDoorUpperOpen"@, numbers_json(o.decon_door_upper_open@)));
    lemma_path_decon_door_lower_open();
    lemma_chain("deconDoorLowerOpen"@, o.decon_door_lower_open@, 0);
    lemma_member(m, path, "deconDoorLowerOpen"@, numbers_json(o.decon_door_lower_open@));
    let m = m.push(("deconDoorLowerOpen"@, numbers_json(o.decon_door_lower_open@)));
    lemma_path_hq_hud_system_type_completed_consoles();
    lemma_chain("hqHudSystemType_CompletedConsoles"@, o.hq_hud_completed_consoles@, 0);
    lemma_member(
        m,
        path,
        "hqHudSystemType_CompletedConsoles"@,
        numbers_json(o.hq_hud_completed_consoles@),
    );
    let m = m.push(
        ("hqHudSystemType_CompletedConsoles"@, numbers_json(o.hq_hud_completed_consoles@)),
    );
    lemma_path_hud_override_system_type_is_active();
    lemma_chain("HudOverrideSystemType_isActive"@, o.hud_override_is_active@, 0);
    lemma_member(
        m,
        path,
        "HudOverrideSystemType_isActive"@,
        numbers_json(o.hud_override_is_active@),
    );
    let m = m.push(("HudOverrideSystemType_isActive"@, numbers_json(o.hud_override_is_active@)));
    lemma_path_mini_game();
    lemma_chain("miniGame"@, o.mini_game@, 1);
    lemma_member(m, path, "miniGame"@, numbers_json(o.mini_game@));
    let m = m.push(("miniGame"@, numbers_json(o.mini_game@)));
    lemma_path_planet_surveillance_minigame_current_camera();
    lemma_chain("planetSurveillanceMinigame_currentCamera"@, o.planet_surveillance_current_camera@, 0);
    lemma_member(
        m,
        path,
        "planetSurveillanceMinigame_currentCamera"@,
        numbers_json(o.planet_surveillance_current_camera@),
    );
    let m = m.push(
        ("planetSurveillanceMinigame_currentCamera"@, numbers_json(o.planet_surveillance_current_camera@)),
    );
    lemma_path_planet_surveillance_minigame_camaras_count();
    lemma_chain("planetSurveillanceMinigame_camarasCount"@, o.planet_surveillance_camaras_count@, 0);
    lemma_member(
        m,
        path,
        "planetSurveillanceMinigame_camarasCount"@,
        numbers_json(o.planet_surveillance_camaras_count@),
    );
    let m = m.push(
        ("planetSurveillanceMinigame_camarasCount"@, numbers_json(o.planet_surveillance_camaras_count@)),
    );
    lemma_path_surveillance_minigame_filtered_rooms_count();
    lemma_chain("surveillanceMinigame_FilteredRoomsCount"@, o.surveillance_filtered_rooms_count@, 0);
    lemma_member(
        m,
        path,
        "surveillanceMinigame_FilteredRoomsCount"@,
        numbers_json(o.surveillance_filtered_rooms_count@),
    );
    let m = m.push(
        ("surveillanceMinigame_FilteredRoomsCount"@, numbers_json(o.surveillance_filtered_rooms_count@)),
    );
    lemma_path_light_radius();
    lemma_chain("lightRadius"@, o.light_radius@, 0);
    lemma_member(m, path, "lightRadius"@, numbers_json(o.light_radius@));
    let m = m.push(("lightRadius"@, numbers_json(o.light_radius@)));
    lemma_path_palette();
    lemma_chain("palette"@, o.palette@, 1);
    lemma_member(m, path, "palette"@, numbers_json(o.palette@));
    let m = m.push(("palette"@, numbers_json(o.palette@)));
    lemma_path_palette_playercolor();
    lemma_chain("palette_playercolor"@, o.palette_playercolor@, 0);
    lemma_member(m, path, "palette_playercolor"@, numbers_json(o.palette_playercolor@));
    let m = m.push(("palette_playercolor"@, numbers_json(o.palette_playercolor@)));
    lemma_path_palette_shadow_color();
    lemma_chain("palette_shadowColor"@, o.palette_shadow_color@, 0);
    lemma_member(m, path, "palette_shadowColor"@, numbers_json(o.palette_shadow_color@));
    let m = m.push(("palette_shadowColor"@, numbers_json(o.palette_shadow_color@)));
    lemma_path_player_control_game_options();
    lemma_chain("playerControl_GameOptions"@, o.player_control_game_options@, 1);
    lemma_member(
        m,
        path,
        "playerControl_GameOptions"@,
        numbers_json(o.player_control_game_options@),
    );
    let m = m.push(("playerControl_GameOptions"@, numbers_json(o.player_control_game_options@)));
    lemma_path_gameoptions_data();
    lemma_chain("gameoptionsData"@, o.gameoptions_data@, 1);
    lemma_member(m, path, "gameoptionsData"@, numbers_json(o.gameoptions_data@));
    let m = m.push(("gameoptionsData"@, numbers_json(o.gameoptions_data@)));
    lemma_path_game_options_map_id();
    lemma_chain("gameOptions_MapId"@, o.game_options_map_id@, 0);
    lemma_member(m, path, "gameOptions_MapId"@, numbers_json(o.game_options_map_id@));
    let m = m.push(("gameOptions_MapId"@, numbers_json(o.game_options_map_id@)));
    lemma_path_game_options_max_p_layers();
    lemma_chain("gameOptions_MaxPLayers"@, o.game_options_max_players@, 0);
    lemma_member(m, path, "gameOptions_MaxPLayers"@, numbers_json(o.game_options_max_players@));
    let m = m.push(("gameOptions_MaxPLayers"@, numbers_json(o.game_options_max_players@)));
    lemma_path_server_manager_current_server();
    lemma_chain("serverManager_currentServer"@, o.server_manager_current_server@, 1);
    lemma_member(
        m,
        path,
        "serverManager_currentServer"@,
        numbers_json(o.server_manager_current_server@),
    );
    let m = m.push(
        ("serverManager_currentServer"@, numbers_json(o.server_manager_current_server@)),
    );
    lemma_path_connect_func();
    lemma_number("connectFunc"@, o.connect_func);
    lemma_member(m, path, "connectFunc"@, JsonView::Integer(o.connect_func));
    let m = m.push(("connectFunc"@, JsonView::Integer(o.connect_func)));
    lemma_path_show_mod_stamp_func();
    lemma_number("showModStampFunc"@, o.show_mod_stamp_func);
    lemma_member(m, path, "showModStampFunc"@, JsonView::Integer(o.show_mod_stamp_func));
    let m = m.push(("showModStampFunc"@, JsonView::Integer(o.show_mod_stamp_func)));
    lemma_path_mod_late_update_func();
    lemma_number("modLateUpdateFunc"@, o.mod_late_update_func);
    lemma_member(m, path, "modLateUpdateFunc"@, JsonView::Integer(o.mod_late_update_func));
    let m = m.push(("modLateUpdateFunc"@, JsonView::Integer(o.mod_late_update_func)));
    lemma_path_fixed_update_func();
    lemma_number("fixedUpdateFunc"@, o.fixed_update_func);
    lemma_member(m, path, "fixedUpdateFunc"@, JsonView::Integer(o.fixed_update_func));
    let m = m.push(("fixedUpdateFunc"@, JsonView::Integer(o.fixed_update_func)));
    lemma_path_ping_message_string();
    lemma_number("pingMessageString"@, o.ping_message_string);
    lemma_member(m, path, "pingMessageString"@, JsonView::Integer(o.ping_message_string));
    let m = m.push(("pingMessageString"@, JsonView::Integer(o.ping_message_string)));
    lemma_client(o.inner_net_client);
    lemma_member(m, path, "innerNetClient"@, o.inner_net_client.json());
    let m = m.push(("innerNetClient"@, o.inner_net_client.json()));
    lemma_player(o.player);
    lemma_member(m, path, "player"@, o.player.json());
    let m = m.push(("player"@, o.player.json()));
    lemma_all_signatures(o.signatures.json()->Object_0);
    lemma_member(m, path, "signatures"@, o.signatures.json());
    let m = m.push(("signatures"@, o.signatures.json()));
    lemma_flag("oldMeetingHud"@, o.old_meeting_hud);
    lemma_member(m, path, "oldMeetingHud"@, JsonView::Bool(o.old_meeting_hud));
    let m = m.push(("oldMeetingHud"@, JsonView::Bool(o.old_meeting_hud)));
    lemma_flag("disableWriting"@, o.disable_writing);
    lemma_member(m, path, "disableWriting"@, JsonView::Bool(o.disable_writing));
    let m = m.push(("disableWriting"@, JsonView::Bool(o.disable_writing)));
    lemma_flag("newGameOptions"@, o.new_game_options);
    lemma_member(m, path, "newGameOptions"@, JsonView::Bool(o.new_game_options));
    let m = m.push(("newGameOptions"@, JsonView::Bool(o.new_game_options)));
    assert(o.json() == JsonView::Object(m));
}

} // verus!
