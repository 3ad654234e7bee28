//! What a file that passes its checks holds, said of the file itself.

use vstd::prelude::*;

use crate::offsets::{
    backed_chains, layout_views, or_zero, total_size, Offsets, SigView, StructMember,
};
use crate::pattern::{all_matches, pattern_of};
use crate::pe::{Arch, ImageView};
use crate::plausible::{numbers_pass_exactly_if_they_are_plausible, numbers_plausible};
use crate::siggen::client_resolution;
use crate::validate::{
    all_problems, check_count, file_leaves, has_member, hook_problems, hooks, shape, signature_problem, signature_problems,
    stale, staleness, struct_problems, structural, write_problems, write_warnings,
};

verus! {

/// Some member of the layout has this name.
pub open spec fn named(layout: Seq<StructMember>, name: Seq<char>) -> bool {
    exists|i: int| 0 <= i < layout.len() && (#[trigger] layout[i]).name@ == name
}

/// The player struct of a file is one the client can read: it describes exactly
/// the bytes that are read, every member takes some of them, and the members
/// that the client looks up by name are there.
pub open spec fn readable_struct(offsets: Offsets) -> bool {
    let layout = offsets.player.struct_layout@;
    &&& total_size(layout_views(layout)) == offsets.player.buffer_length
    &&& forall|i: int| 0 <= i < layout.len() ==> (#[trigger] layout[i])@.size() > 0
    &&& named(layout, "id"@)
    &&& named(layout, "outfitsPtr"@)
    &&& named(layout, "rolePtr"@)
    &&& named(layout, "taskPtr"@)
    &&& named(layout, "dead"@)
    &&& named(layout, "objectPtr"@)
}

proof fn lemma_named(layout: Seq<StructMember>, name: Seq<char>)
    ensures
        has_member(layout_views(layout), name) == named(layout, name),
{
    let views = layout_views(layout);
    if has_member(views, name) {
        let i = choose|i: int| 0 <= i < views.len() && (#[trigger] views[i]).name == name;
        assert(layout[i].name@ == name);
    }
    if named(layout, name) {
        let i = choose|i: int| 0 <= i < layout.len() && (#[trigger] layout[i]).name@ == name;
        assert(views[i].name == name);
    }
}

/// Nothing is wrong with the player struct if and only if the client can read it.
pub proof fn a_struct_passes_exactly_if_it_can_be_read(offsets: Offsets)
    ensures
        struct_problems(
            layout_views(offsets.player.struct_layout@),
            offsets.player.buffer_length,
        ).len() == 0 <==> readable_struct(offsets),
{
    let layout = offsets.player.struct_layout@;
    let views = layout_views(layout);
    lemma_named(layout, "id"@);
    lemma_named(layout, "outfitsPtr"@);
    lemma_named(layout, "rolePtr"@);
    lemma_named(layout, "taskPtr"@);
    lemma_named(layout, "dead"@);
    lemma_named(layout, "objectPtr"@);
    assert forall|i: int| 0 <= i < layout.len() implies (#[trigger] layout[i])@ == views[i] by {}
    if exists|i: int| 0 <= i < views.len() && (#[trigger] views[i]).size() <= 0 {
        let i = choose|i: int| 0 <= i < views.len() && (#[trigger] views[i]).size() <= 0;
        assert(layout[i]@.size() <= 0);
    }
}

/// A chain starts with a slot and this `static_fields` offset, and has a
/// signature to fill the slot from.
pub open spec fn backed(chain: Seq<i64>, signature: SigView, static_fields: i64) -> bool {
    chain.len() >= 2 && chain[1] == static_fields && signature.present()
}

/// Every chain that is resolved by signature has a signature, and they all go
/// through one `static_fields` offset.
pub open spec fn evenly_backed(o: Offsets, static_fields: i64) -> bool {
    &&& backed(o.meeting_hud@, o.signatures.meeting_hud@, static_fields)
    &&& backed(o.all_players_ptr@, o.signatures.game_data@, static_fields)
    &&& backed(o.ship_status@, o.signatures.ship_status@, static_fields)
    &&& backed(o.mini_game@, o.signatures.mini_game@, static_fields)
    &&& backed(o.palette@, o.signatures.palette@, static_fields)
    &&& backed(o.gameoptions_data@, o.signatures.game_options_manager@, static_fields)
    &&& backed(o.server_manager_current_server@, o.signatures.server_manager@, static_fields)
    &&& backed(o.inner_net_client.base@, o.signatures.inner_net_client@, static_fields)
}

proof fn lemma_shape(chains: Seq<(Seq<char>, Seq<i64>, SigView)>)
    ensures
        chains.len() > 0 && shape(chains).1.len() == 0 ==> shape(chains).0 is Some && forall|i: int|
            0 <= i < chains.len() ==> backed(
                (#[trigger] chains[i]).1,
                chains[i].2,
                shape(chains).0->0,
            ),
        shape(chains).0 is None && shape(chains).1.len() == 0 ==> chains.len() == 0,
        forall|s: i64|
            (forall|i: int|
                0 <= i < chains.len() ==> #[trigger] backed(chains[i].1, chains[i].2, s)) ==> shape(
                chains,
            ).1.len() == 0 && (chains.len() > 0 ==> shape(chains).0 == Some(s)),
    decreases chains.len(),
{
    if chains.len() > 0 {
        let before = chains.drop_last();
        lemma_shape(before);
        let last = chains.len() - 1;
        assert(chains[last] == chains.last());
        if shape(chains).1.len() == 0 {
            assert(shape(before).1.len() == 0);
            assert forall|i: int| 0 <= i < chains.len() implies backed(
                (#[trigger] chains[i]).1,
                chains[i].2,
                shape(chains).0->0,
            ) by {
                if i < last {
                    assert(before[i] == chains[i]);
                    assert(backed(before[i].1, before[i].2, shape(before).0->0));
                }
            }
        }
        assert forall|s: i64|
            (forall|i: int|
                0 <= i < chains.len() ==> #[trigger] backed(
                    chains[i].1,
                    chains[i].2,
                    s,
                )) implies shape(chains).1.len() == 0 && shape(chains).0 == Some(s) by {
            assert forall|i: int| 0 <= i < before.len() implies #[trigger] backed(
                before[i].1,
                before[i].2,
                s,
            ) by {
                assert(backed(chains[i].1, chains[i].2, s));
            }
            assert(backed(chains[last].1, chains[last].2, s));
        }
    }
}

/// Nothing is wrong with the shape of the chains if and only if they are all
/// backed by a signature and go through one `static_fields` offset.
pub proof fn chains_pass_exactly_if_they_are_evenly_backed(o: Offsets)
    ensures
        shape(backed_chains(o)).1.len() == 0 <==> exists|s: i64| #[trigger] evenly_backed(o, s),
{
    let chains = backed_chains(o);
    lemma_shape(chains);
    if shape(chains).1.len() == 0 {
        let s = shape(chains).0->0;
        assert(backed(chains[0].1, chains[0].2, s));
        assert(backed(chains[1].1, chains[1].2, s));
        assert(backed(chains[2].1, chains[2].2, s));
        assert(backed(chains[3].1, chains[3].2, s));
        assert(backed(chains[4].1, chains[4].2, s));
        assert(backed(chains[5].1, chains[5].2, s));
        assert(backed(chains[6].1, chains[6].2, s));
        assert(backed(chains[7].1, chains[7].2, s));
        assert(evenly_backed(o, s));
    }
    if exists|s: i64| #[trigger] evenly_backed(o, s) {
        let s = choose|s: i64| #[trigger] evenly_backed(o, s);
        assert forall|i: int| 0 <= i < chains.len() implies #[trigger] backed(
            chains[i].1,
            chains[i].2,
            s,
        ) by {}
    }
}

/// A signature matches at one place in the image, and the client's arithmetic
/// there gives the slot of the type.
pub open spec fn finds(
    image: ImageView,
    types: Map<Seq<char>, u64>,
    signature: SigView,
    of: Seq<char>,
) -> bool {
    &&& signature.sig matches Some(text) && pattern_of(text) matches Ok(pattern) && {
        let sites = all_matches(pattern, image.mapped);
        &&& sites.len() == 1
        &&& types.contains_key(of)
        &&& client_resolution(
            image,
            sites[0] as int,
            or_zero(signature.pattern_offset),
            or_zero(signature.address_offset),
        ) matches Ok(slot) && slot == types[of]
    }
}

proof fn lemma_finds(
    image: ImageView,
    types: Map<Seq<char>, u64>,
    name: Seq<char>,
    signature: SigView,
    of: Seq<char>,
)
    ensures
        signature_problem(image, types, name, signature, of) is None <==> finds(
            image,
            types,
            signature,
            of,
        ),
{
}

/// The generated signatures pass if and only if each finds the slot of its own
/// type.
pub proof fn signatures_pass_exactly_if_they_find_their_slots(
    o: Offsets,
    image: ImageView,
    types: Map<Seq<char>, u64>,
)
    ensures
        signature_problems(o, image, types).len() == 0 <==> {
            &&& finds(image, types, o.signatures.inner_net_client@, "AmongUsClient"@)
            &&& finds(image, types, o.signatures.meeting_hud@, "MeetingHud"@)
            &&& finds(image, types, o.signatures.game_data@, "GameData"@)
            &&& finds(image, types, o.signatures.ship_status@, "ShipStatus"@)
            &&& finds(image, types, o.signatures.mini_game@, "Minigame"@)
            &&& finds(image, types, o.signatures.palette@, "Palette"@)
            &&& finds(image, types, o.signatures.player_control@, "PlayerControl"@)
            &&& finds(image, types, o.signatures.server_manager@, "ServerManager"@)
            &&& finds(image, types, o.signatures.game_options_manager@, "GameOptionsManager"@)
        },
{
    let s = o.signatures;
    lemma_finds(image, types, "innerNetClient"@, s.inner_net_client@, "AmongUsClient"@);
    lemma_finds(image, types, "meetingHud"@, s.meeting_hud@, "MeetingHud"@);
    lemma_finds(image, types, "gameData"@, s.game_data@, "GameData"@);
    lemma_finds(image, types, "shipStatus"@, s.ship_status@, "ShipStatus"@);
    lemma_finds(image, types, "miniGame"@, s.mini_game@, "Minigame"@);
    lemma_finds(image, types, "palette"@, s.palette@, "Palette"@);
    lemma_finds(image, types, "playerControl"@, s.player_control@, "PlayerControl"@);
    lemma_finds(image, types, "serverManager"@, s.server_manager@, "ServerManager"@);
    lemma_finds(
        image,
        types,
        "gameOptionsManager"@,
        s.game_options_manager@,
        "GameOptionsManager"@,
    );
}

/// A hook is a pattern that matches at exactly one place in the image.
pub open spec fn usable(image: ImageView, signature: SigView) -> bool {
    signature.sig matches Some(text) && pattern_of(text) matches Ok(pattern) && all_matches(
        pattern,
        image.mapped,
    ).len() == 1
}

/// Every hook for injected code is usable.
pub open spec fn hooks_usable(o: Offsets, image: ImageView) -> bool {
    &&& usable(image, o.signatures.show_mod_stamp@)
    &&& usable(image, o.signatures.connect_func@)
    &&& usable(image, o.signatures.fixed_update_func@)
    &&& usable(image, o.signatures.mod_late_update@)
    &&& usable(image, o.signatures.ping_message_string@)
}

proof fn lemma_hooks(image: ImageView, all: Seq<(Seq<char>, SigView)>)
    ensures
        hook_problems(image, all).len() == 0 <==> forall|i: int|
            0 <= i < all.len() ==> usable(image, (#[trigger] all[i]).1),
        stale(image, all).len() == 0 <==> forall|i: int|
            0 <= i < all.len() ==> usable(image, (#[trigger] all[i]).1),
    decreases all.len(),
{
    if all.len() > 0 {
        let before = all.drop_last();
        lemma_hooks(image, before);
        let last = all.len() - 1;
        assert(all[last] == all.last());
        assert(staleness(image, all[last].0, all[last].1) is None <==> usable(image, all[last].1));
        if forall|i: int| 0 <= i < all.len() ==> usable(image, (#[trigger] all[i]).1) {
            assert forall|i: int| 0 <= i < before.len() implies usable(
                image,
                (#[trigger] before[i]).1,
            ) by {
                assert(usable(image, all[i].1));
            }
            assert(usable(image, all[last].1));
        }
        if forall|i: int| 0 <= i < before.len() ==> usable(image, (#[trigger] before[i]).1) {
            assert forall|i: int| 0 <= i < all.len() && (i < last || usable(
                image,
                all[last].1,
            )) implies usable(image, (#[trigger] all[i]).1) by {
                if i < last {
                    assert(usable(image, before[i].1));
                }
            }
        }
    }
}

/// A file that lets the client write on x86 passes only with usable hooks; while
/// writing is disabled, unusable ones are a warning and no problem; x64 has no
/// write path.
pub proof fn the_write_path_passes_exactly_with_usable_hooks(o: Offsets, image: ImageView)
    ensures
        write_problems(o, image).len() == 0 <==> image.arch == Arch::X64 || o.disable_writing
            || hooks_usable(o, image),
        write_warnings(o, image).len() == 0 <==> image.arch == Arch::X64 || !o.disable_writing
            || hooks_usable(o, image),
{
    let all = hooks(o);
    lemma_hooks(image, all);
    assert(all.len() == 5);
    assert(all[0].1 == o.signatures.show_mod_stamp@);
    assert(all[1].1 == o.signatures.connect_func@);
    assert(all[2].1 == o.signatures.fixed_update_func@);
    assert(all[3].1 == o.signatures.mod_late_update@);
    assert(all[4].1 == o.signatures.ping_message_string@);
}

/// Each generated signature finds the slot of its own type.
pub open spec fn signatures_find(
    o: Offsets,
    image: ImageView,
    types: Map<Seq<char>, u64>,
) -> bool {
    &&& finds(image, types, o.signatures.inner_net_client@, "AmongUsClient"@)
    &&& finds(image, types, o.signatures.meeting_hud@, "MeetingHud"@)
    &&& finds(image, types, o.signatures.game_data@, "GameData"@)
    &&& finds(image, types, o.signatures.ship_status@, "ShipStatus"@)
    &&& finds(image, types, o.signatures.mini_game@, "Minigame"@)
    &&& finds(image, types, o.signatures.palette@, "Palette"@)
    &&& finds(image, types, o.signatures.player_control@, "PlayerControl"@)
    &&& finds(image, types, o.signatures.server_manager@, "ServerManager"@)
    &&& finds(image, types, o.signatures.game_options_manager@, "GameOptionsManager"@)
}

/// A file passes every check if and only if its numbers are plausible, its chains
/// evenly backed by signatures, its player struct readable, each signature finds
/// the slot of its type, and the hooks are usable where the client writes.
pub proof fn a_file_passes_exactly_if_it_is_sound(
    o: Offsets,
    image: ImageView,
    types: Map<Seq<char>, u64>,
)
    ensures
        structural(o).len() == 0 <==> numbers_plausible(o) && readable_struct(o) && exists|s: i64|
            #[trigger] evenly_backed(o, s),
        all_problems(o, image, types).len() == 0 <==> {
            &&& numbers_plausible(o)
            &&& exists|s: i64| #[trigger] evenly_backed(o, s)
            &&& readable_struct(o)
            &&& signatures_find(o, image, types)
            &&& image.arch == Arch::X64 || o.disable_writing || hooks_usable(o, image)
        },
{
    numbers_pass_exactly_if_they_are_plausible(o);
    chains_pass_exactly_if_they_are_evenly_backed(o);
    a_struct_passes_exactly_if_it_can_be_read(o);
    signatures_pass_exactly_if_they_find_their_slots(o, image, types);
    the_write_path_passes_exactly_with_usable_hooks(o, image);
}

/// Every leaf of the file counts as a check, and so do the eight chains, the four
/// properties of the struct, the nine signatures and, on x86, the five hooks.
pub proof fn every_check_is_counted(o: Offsets, image: ImageView)
    ensures
        check_count(o, image) == file_leaves(o).len() + 21 + (if image.arch == Arch::X64 {
            0int
        } else {
            5int
        }),
{
}

} // verus!
