//! The schema of `offsets.json`: its keys can be told apart, and two files say
//! the same if and only if they are equal field by field.

use vstd::prelude::*;

use crate::json::{
    distinct, lemma_found, lemma_place, lemma_same_as_itself, lemma_same_members, member, place,
    same_member, same_value, JsonView, MembersView,
};
use crate::offsets::{
    layout_json, layout_views, no_members, numbers_json, signature_json, signature_of,
    InnerNetClient, Offsets, Outfit, Player, SigView, Signatures, StructMember, StructMemberView,
};
use crate::report::{
    differences, no_path_is_reported_twice, only_equal_values_do_not_differ, paths, plain_key,
    plain_keys, swapping_keeps_the_paths,
};

verus! {

/// None of the first `n` characters is a dot.
spec fn free_before(key: Seq<char>, n: nat) -> bool
    decreases n,
{
    n == 0 || (key[n - 1] != '.' && free_before(key, (n - 1) as nat))
}

proof fn lemma_free(key: Seq<char>, n: nat)
    requires
        free_before(key, n),
    ensures
        forall|i: int| 0 <= i < n ==> #[trigger] key[i] != '.',
    decreases n,
{
    if n > 0 {
        lemma_free(key, (n - 1) as nat);
    }
}

proof fn lemma_plain(key: Seq<char>)
    requires
        key.len() > 0,
        free_before(key, key.len()),
    ensures
        plain_key(key),
{
    lemma_free(key, key.len());
}

/// A number by which the keys of one object differ.
spec fn key_code(key: Seq<char>) -> int {
    1_000_000_000_000 * key.len() + 1_000_000_000 * (key[0] as int) + 1_000_000 * (key[2] as int)
        + 1_000 * (key[(key.len() / 2) as int] as int) + key.last() as int
}

#[verifier::opaque]
spec fn is_key(key: Seq<char>, code: int) -> bool {
    plain_key(key) && key_code(key) == code
}

/// The numbers of the keys of these members.
#[verifier::opaque]
spec fn codes(members: MembersView) -> Set<int>
    decreases members.len(),
{
    if members.len() == 0 {
        Set::empty()
    } else {
        codes(members.drop_last()).insert(key_code(members.last().0))
    }
}

proof fn lemma_codes(members: MembersView)
    ensures
        forall|i: int|
            0 <= i < members.len() ==> codes(members).contains(key_code((#[trigger] members[i]).0)),
    decreases members.len(),
{
    reveal(codes);
    if members.len() > 0 {
        let shorter = members.drop_last();
        lemma_codes(shorter);
        assert forall|i: int| 0 <= i < members.len() implies codes(members).contains(
            key_code((#[trigger] members[i]).0),
        ) by {
            if i < shorter.len() {
                assert(codes(shorter).contains(key_code(shorter[i].0)));
            }
        }
    }
}

/// Two objects have the same keys in the same order, each of them once, and each
/// of them can be told apart in a path.
#[verifier::opaque]
spec fn aligned(m: MembersView, n: MembersView) -> bool {
    &&& m.len() == n.len()
    &&& forall|i: int| 0 <= i < m.len() ==> (#[trigger] m[i]).0 == n[i].0
    &&& forall|i: int| 0 <= i < m.len() ==> plain_key((#[trigger] m[i]).0)
    &&& distinct(m)
}

/// Two objects say the same at each place.
#[verifier::opaque]
spec fn pairs_same(m: MembersView, n: MembersView) -> bool
    decreases m.len(),
{
    m.len() == 0 || (pairs_same(m.drop_last(), n.drop_last()) && same_value(
        m.last().1,
        n.last().1,
    ))
}

/// Every key in the values of these members can be told apart in a path.
#[verifier::opaque]
spec fn values_plain(m: MembersView) -> bool
    decreases m.len(),
{
    m.len() == 0 || (values_plain(m.drop_last()) && plain_keys(m.last().1))
}

proof fn lemma_start()
    ensures
        aligned(no_members(), no_members()),
        pairs_same(no_members(), no_members()),
        values_plain(no_members()),
        codes(no_members()) == Set::<int>::empty(),
{
    reveal(aligned);
    reveal(codes);
    reveal(pairs_same);
    reveal(values_plain);
}

proof fn lemma_member(
    m: MembersView,
    n: MembersView,
    key: Seq<char>,
    code: int,
    v: JsonView,
    w: JsonView,
)
    requires
        aligned(m, n),
        is_key(key, code),
        !codes(m).contains(code),
    ensures
        aligned(m.push((key, v)), n.push((key, w))),
        codes(m.push((key, v))) == codes(m).insert(code),
        pairs_same(m.push((key, v)), n.push((key, w))) == (pairs_same(m, n) && same_value(v, w)),
        values_plain(m.push((key, v))) == (values_plain(m) && plain_keys(v)),
{
    reveal(aligned);
    reveal(codes);
    reveal(pairs_same);
    reveal(values_plain);
    reveal(is_key);
    let x = m.push((key, v));
    let y = n.push((key, w));
    lemma_codes(m);
    assert(x.drop_last() =~= m);
    assert(y.drop_last() =~= n);
    assert forall|i: int, j: int| 0 <= i < j < x.len() implies (#[trigger] x[i]).0 != (
    #[trigger] x[j]).0 by {
        assert(x[i] == m[i]);
        if j < m.len() {
            assert(x[j] == m[j]);
        } else {
            assert(codes(m).contains(key_code(m[i].0)));
        }
    }
}

proof fn lemma_pairs(m: MembersView, n: MembersView)
    requires
        m.len() == n.len(),
    ensures
        pairs_same(m, n) == (forall|i: int|
            0 <= i < m.len() ==> same_value((#[trigger] m[i]).1, n[i].1)),
    decreases m.len(),
{
    reveal(pairs_same);
    if m.len() > 0 {
        let x = m.drop_last();
        let y = n.drop_last();
        lemma_pairs(x, y);
        let last = m.len() - 1;
        if pairs_same(m, n) {
            assert forall|i: int| 0 <= i < m.len() implies same_value((#[trigger] m[i]).1, n[i].1) by {
                if i < last {
                    assert(same_value(x[i].1, y[i].1));
                }
            }
        }
        if forall|i: int| 0 <= i < m.len() ==> same_value((#[trigger] m[i]).1, n[i].1) {
            assert forall|i: int| 0 <= i < x.len() implies same_value((#[trigger] x[i]).1, y[i].1) by {
                assert(same_value(m[i].1, n[i].1));
            }
            assert(same_value(m[last].1, n[last].1));
        }
    }
}

proof fn lemma_values_plain(m: MembersView)
    requires
        values_plain(m),
    ensures
        forall|i: int| 0 <= i < m.len() ==> plain_keys((#[trigger] m[i]).1),
    decreases m.len(),
{
    reveal(values_plain);
    if m.len() > 0 {
        let x = m.drop_last();
        lemma_values_plain(x);
        assert forall|i: int| 0 <= i < m.len() implies plain_keys((#[trigger] m[i]).1) by {
            if i < x.len() {
                assert(plain_keys(x[i].1));
            }
        }
    }
}

proof fn lemma_whole(m: MembersView, n: MembersView)
    requires
        aligned(m, n),
    ensures
        same_value(JsonView::Object(m), JsonView::Object(n)) == pairs_same(m, n),
        values_plain(m) ==> plain_keys(JsonView::Object(m)),
{
    reveal(aligned);
    lemma_same_members(m, n);
    lemma_pairs(m, n);
    assert(distinct(n)) by {
        assert forall|i: int, j: int| 0 <= i < j < n.len() implies (#[trigger] n[i]).0 != (
        #[trigger] n[j]).0 by {
            assert(m[i].0 == n[i].0 && m[j].0 == n[j].0);
            assert(m[i].0 != m[j].0);
        }
    }
    if same_value(JsonView::Object(m), JsonView::Object(n)) {
        assert forall|i: int| 0 <= i < m.len() implies same_value((#[trigger] m[i]).1, n[i].1) by {
            assert(same_member(m, n, m[i].0));
            lemma_found(m, i);
            lemma_found(n, i);
        }
    }
    if pairs_same(m, n) {
        assert forall|key: Seq<char>| #[trigger] same_member(m, n, key) by {
            lemma_place(m, key, 0);
            lemma_place(n, key, 0);
            if let Some(i) = place(m, key) {
                assert(m[i].0 == n[i].0);
                lemma_found(n, i);
                assert(same_value(m[i].1, n[i].1));
            } else if let Some(j) = place(n, key) {
                assert(m[j].0 == n[j].0);
            }
        }
    }
    if values_plain(m) {
        lemma_values_plain(m);
        let value = JsonView::Object(m);
        assert forall|i: int| 0 <= i < m.len() implies plain_key((#[trigger] m[i]).0)
            && plain_keys(m[i].1) by {}
        assert(value->Object_0 == m);
    }
}

proof fn lemma_numbers(x: Seq<i64>, y: Seq<i64>)
    ensures
        same_value(numbers_json(x), numbers_json(y)) == (x == y),
        plain_keys(numbers_json(x)),
{
    let xs = numbers_json(x)->List_0;
    let ys = numbers_json(y)->List_0;
    if same_value(numbers_json(x), numbers_json(y)) {
        assert forall|i: int| 0 <= i < x.len() implies x[i] == y[i] by {
            assert(same_value(xs[i], ys[i]));
        }
        assert(x =~= y);
    }
    if x == y {
        lemma_same_as_itself(numbers_json(x));
    }
}

proof fn lemma_struct_member(x: StructMemberView, y: StructMemberView)
    ensures
        same_value(x.json(), y.json()) == (x == y),
{
    reveal_strlit("type");
    reveal_strlit("skip");
    reveal_strlit("name");
    if x == y {
        lemma_same_as_itself(x.json());
    }
    if same_value(x.json(), y.json()) {
        let m = x.json()->Object_0;
        let n = y.json()->Object_0;
        lemma_same_members(m, n);
        struct_members_are_written_under_their_keys(x);
        struct_members_are_written_under_their_keys(y);
        assert(same_member(m, n, "type"@));
        assert(same_member(m, n, "skip"@));
        assert(same_member(m, n, "name"@));
        lemma_place(m, "type"@, 0);
        lemma_place(m, "skip"@, 0);
        lemma_place(m, "name"@, 0);
        lemma_place(n, "type"@, 0);
        lemma_place(n, "skip"@, 0);
        lemma_place(n, "name"@, 0);
    }
}

/// A member of a struct is written under its keys, its padding only where it has
/// some.
pub proof fn struct_members_are_written_under_their_keys(x: StructMemberView)
    ensures
        member(x.json()->Object_0, "type"@) == Some(JsonView::Text(x.kind)),
        member(x.json()->Object_0, "skip"@) == (match x.skip {
            Some(bytes) => Some(JsonView::Integer(bytes)),
            None => None,
        }),
        member(x.json()->Object_0, "name"@) == Some(JsonView::Text(x.name)),
{
    reveal_strlit("type");
    reveal_strlit("skip");
    reveal_strlit("name");
    let m = x.json()->Object_0;
    assert("type"@[0] == 't' && "skip"@[0] == 's' && "name"@[0] == 'n');
    lemma_place(m, "type"@, 0);
    lemma_place(m, "skip"@, 0);
    lemma_place(m, "name"@, 0);
    assert(m[0].0 == "type"@);
    assert(m[m.len() - 1].0 == "name"@);
    if x.skip is Some {
        assert(m[1].0 == "skip"@);
    }
}

proof fn lemma_layout(x: Seq<StructMember>, y: Seq<StructMember>)
    ensures
        same_value(layout_json(x), layout_json(y)) == (layout_views(x) == layout_views(y)),
        plain_keys(layout_json(x)),
{
    let xs = layout_json(x)->List_0;
    let ys = layout_json(y)->List_0;
    let p = layout_views(x);
    let q = layout_views(y);
    if same_value(layout_json(x), layout_json(y)) {
        assert forall|i: int| 0 <= i < p.len() implies p[i] == q[i] by {
            assert(same_value(xs[i], ys[i]));
            lemma_struct_member(p[i], q[i]);
        }
        assert(p =~= q);
    }
    if p == q {
        lemma_same_as_itself(layout_json(x));
    }
}

/// A signature is written under its keys, without what is not there.
pub proof fn a_signature_is_written_under_its_keys(s: SigView)
    ensures
        member(signature_json(s)->Object_0, "sig"@) == (match s.sig {
            Some(text) => Some(JsonView::Text(text)),
            None => None,
        }),
        member(signature_json(s)->Object_0, "patternOffset"@) == (match s.pattern_offset {
            Some(n) => Some(JsonView::Integer(n)),
            None => None,
        }),
        member(signature_json(s)->Object_0, "addressOffset"@) == (match s.address_offset {
            Some(n) => Some(JsonView::Integer(n)),
            None => None,
        }),
        plain_keys(signature_json(s)),
{
    reveal_strlit("sig");
    reveal_strlit("patternOffset");
    reveal_strlit("addressOffset");
    reveal_with_fuel(free_before, 15);
    lemma_plain("sig"@);
    lemma_plain("patternOffset"@);
    lemma_plain("addressOffset"@);
    let m = signature_json(s)->Object_0;
    assert("sig"@.len() == 3 && "patternOffset"@[0] == 'p' && "addressOffset"@[0] == 'a');
    lemma_place(m, "sig"@, 0);
    lemma_place(m, "patternOffset"@, 0);
    lemma_place(m, "addressOffset"@, 0);
    if s.sig is Some {
        assert(m[0].0 == "sig"@);
    }
    if s.address_offset is Some {
        assert(m[m.len() - 1].0 == "addressOffset"@);
    }
    if s.pattern_offset is Some {
        if s.sig is Some {
            assert(m[1].0 == "patternOffset"@);
        } else {
            assert(m[0].0 == "patternOffset"@);
        }
    }
    let value = signature_json(s);
    assert forall|i: int| 0 <= i < m.len() implies plain_key((#[trigger] m[i]).0) && plain_keys(
        m[i].1,
    ) by {}
    assert(value->Object_0 == m);
}

/// A signature that was written is read as the same signature.
pub proof fn signatures_round_trip(s: SigView)
    ensures
        signature_of(signature_json(s)) == Some(s),
{
    a_signature_is_written_under_its_keys(s);
}

proof fn lemma_signature(s: SigView, t: SigView)
    ensures
        same_value(signature_json(s), signature_json(t)) == (s == t),
        plain_keys(signature_json(s)),
{
    a_signature_is_written_under_its_keys(s);
    a_signature_is_written_under_its_keys(t);
    if s == t {
        lemma_same_as_itself(signature_json(s));
    }
    if same_value(signature_json(s), signature_json(t)) {
        let m = signature_json(s)->Object_0;
        let n = signature_json(t)->Object_0;
        lemma_same_members(m, n);
        assert(same_member(m, n, "sig"@));
        assert(same_member(m, n, "patternOffset"@));
        assert(same_member(m, n, "addressOffset"@));
    }
}

proof fn lemma_keys_1()
    ensures
        is_key("colorId"@, 7099108111100),
        is_key("hatId"@, 5104116116100),
        is_key("skinId"@, 6115105110100),
        is_key("visorId"@, 7118115111100),
        is_key("playerName"@, 10112097114101),
        is_key("base"@, 4098115115101),
        is_key("networkAddress"@, 14110116065115),
        is_key("networkPort"@, 11110116114116),
        is_key("gameMode"@, 8103109077101),
{
    reveal(is_key);
    reveal_with_fuel(free_before, 43);
    reveal_strlit("colorId");
    lemma_plain("colorId"@);
    reveal_strlit("hatId");
    lemma_plain("hatId"@);
    reveal_strlit("skinId");
    lemma_plain("skinId"@);
    reveal_strlit("visorId");
    lemma_plain("visorId"@);
    reveal_strlit("playerName");
    lemma_plain("playerName"@);
    reveal_strlit("base");
    lemma_plain("base"@);
    reveal_strlit("networkAddress");
    lemma_plain("networkAddress"@);
    reveal_strlit("networkPort");
    lemma_plain("networkPort"@);
    reveal_strlit("gameMode");
    lemma_plain("gameMode"@);
}

proof fn lemma_keys_2()
    ensures
        is_key("gameId"@, 6103109101100),
        is_key("hostId"@, 6104115116100),
        is_key("clientId"@, 8099105110100),
        is_key("gameState"@, 9103109083101),
        is_key("onlineScene"@, 11111108101101),
        is_key("mainMenuScene"@, 13109105110101),
        is_key("innerNetClient"@, 14105110116116),
        is_key("meetingHud"@, 10109101110100),
        is_key("gameData"@, 8103109068097),
{
    reveal(is_key);
    reveal_with_fuel(free_before, 43);
    reveal_strlit("gameId");
    lemma_plain("gameId"@);
    reveal_strlit("hostId");
    lemma_plain("hostId"@);
    reveal_strlit("clientId");
    lemma_plain("clientId"@);
    reveal_strlit("gameState");
    lemma_plain("gameState"@);
    reveal_strlit("onlineScene");
    lemma_plain("onlineScene"@);
    reveal_strlit("mainMenuScene");
    lemma_plain("mainMenuScene"@);
    reveal_strlit("innerNetClient");
    lemma_plain("innerNetClient"@);
    reveal_strlit("meetingHud");
    lemma_plain("meetingHud"@);
    reveal_strlit("gameData");
    lemma_plain("gameData"@);
}

proof fn lemma_keys_3()
    ensures
        is_key("shipStatus"@, 10115105116115),
        is_key("miniGame"@, 8109110071101),
        is_key("palette"@, 7112108101101),
        is_key("playerControl"@, 13112097067108),
        is_key("showModStamp"@, 12115111100112),
        is_key("connectFunc"@, 11099110099099),
        is_key("fixedUpdateFunc"@, 15102120100099),
        is_key("pingMessageString"@, 17112110097103),
        is_key("modLateUpdate"@, 13109100101101),
{
    reveal(is_key);
    reveal_with_fuel(free_before, 43);
    reveal_strlit("shipStatus");
    lemma_plain("shipStatus"@);
    reveal_strlit("miniGame");
    lemma_plain("miniGame"@);
    reveal_strlit("palette");
    lemma_plain("palette"@);
    reveal_strlit("playerControl");
    lemma_plain("playerControl"@);
    reveal_strlit("showModStamp");
    lemma_plain("showModStamp"@);
    reveal_strlit("connectFunc");
    lemma_plain("connectFunc"@);
    reveal_strlit("fixedUpdateFunc");
    lemma_plain("fixedUpdateFunc"@);
    reveal_strlit("pingMessageString");
    lemma_plain("pingMessageString"@);
    reveal_strlit("modLateUpdate");
    lemma_plain("modLateUpdate"@);
}

proof fn lemma_keys_4()
    ensures
        is_key("serverManager"@, 13115114077114),
        is_key("gameOptionsManager"@, 18103109110114),
        is_key("struct"@, 6115114117116),
        is_key("isDummy"@, 7105068117121),
        is_key("isLocal"@, 7105076111108),
        is_key("localX"@, 6108099097088),
        is_key("localY"@, 6108099097089),
        is_key("remoteX"@, 7114109111088),
        is_key("remoteY"@, 7114109111089),
{
    reveal(is_key);
    reveal_with_fuel(free_before, 43);
    reveal_strlit("serverManager");
    lemma_plain("serverManager"@);
    reveal_strlit("gameOptionsManager");
    lemma_plain("gameOptionsManager"@);
    reveal_strlit("struct");
    lemma_plain("struct"@);
    reveal_strlit("isDummy");
    lemma_plain("isDummy"@);
    reveal_strlit("isLocal");
    lemma_plain("isLocal"@);
    reveal_strlit("localX");
    lemma_plain("localX"@);
    reveal_strlit("localY");
    lemma_plain("localY"@);
    reveal_strlit("remoteX");
    lemma_plain("remoteX"@);
    reveal_strlit("remoteY");
    lemma_plain("remoteY"@);
}

proof fn lemma_keys_5()
    ensures
        is_key("bufferLength"@, 12098102076104),
        is_key("offsets"@, 7111102115115),
        is_key("inVent"@, 6105086101116),
        is_key("currentOutfit"@, 13099114116116),
        is_key("roleTeam"@, 8114108084109),
        is_key("nameText"@, 8110109084116),
        is_key("outfit"@, 6111116102116),
        is_key("objectCachePtr"@, 14111106097114),
        is_key("meetingHudState"@, 15109101072101),
{
    reveal(is_key);
    reveal_with_fuel(free_before, 43);
    reveal_strlit("bufferLength");
    lemma_plain("bufferLength"@);
    reveal_strlit("offsets");
    lemma_plain("offsets"@);
    reveal_strlit("inVent");
    lemma_plain("inVent"@);
    reveal_strlit("currentOutfit");
    lemma_plain("currentOutfit"@);
    reveal_strlit("roleTeam");
    lemma_plain("roleTeam"@);
    reveal_strlit("nameText");
    lemma_plain("nameText"@);
    reveal_strlit("outfit");
    lemma_plain("outfit"@);
    reveal_strlit("objectCachePtr");
    lemma_plain("objectCachePtr"@);
    reveal_strlit("meetingHudState");
    lemma_plain("meetingHudState"@);
}

proof fn lemma_keys_6()
    ensures
        is_key("allPlayersPtr"@, 13097108121114),
        is_key("allPlayers"@, 10097108097115),
        is_key("playerCount"@, 11112097114116),
        is_key("playerAddrPtr"@, 13112097065114),
        is_key("shipStatus_systems"@, 18115105115115),
        is_key("shipStatus_map"@, 14115105116112),
        is_key("shipstatus_allDoors"@, 19115105115115),
        is_key("door_doorId"@, 11100111100100),
        is_key("door_isOpen"@, 11100111105110),
{
    reveal(is_key);
    reveal_with_fuel(free_before, 43);
    reveal_strlit("allPlayersPtr");
    lemma_plain("allPlayersPtr"@);
    reveal_strlit("allPlayers");
    lemma_plain("allPlayers"@);
    reveal_strlit("playerCount");
    lemma_plain("playerCount"@);
    reveal_strlit("playerAddrPtr");
    lemma_plain("playerAddrPtr"@);
    reveal_strlit("shipStatus_systems");
    lemma_plain("shipStatus_systems"@);
    reveal_strlit("shipStatus_map");
    lemma_plain("shipStatus_map"@);
    reveal_strlit("shipstatus_allDoors");
    lemma_plain("shipstatus_allDoors"@);
    reveal_strlit("door_doorId");
    lemma_plain("door_doorId"@);
    reveal_strlit("door_isOpen");
    lemma_plain("door_isOpen"@);
}

proof fn lemma_keys_7()
    ensures
        is_key("deconDoorUpperOpen"@, 18100099085110),
        is_key("deconDoorLowerOpen"@, 18100099076110),
        is_key("hqHudSystemType_CompletedConsoles"@, 33104072067115),
        is_key("HudOverrideSystemType_isActive"@, 30072100101101),
        is_key("planetSurveillanceMinigame_currentCamera"@, 40112097110097),
        is_key("planetSurveillanceMinigame_camarasCount"@, 39112097105116),
        is_key("surveillanceMinigame_FilteredRoomsCount"@, 39115114101116),
        is_key("lightRadius"@, 11108103082115),
        is_key("palette_playercolor"@, 19112108108114),
{
    reveal(is_key);
    reveal_with_fuel(free_before, 43);
    reveal_strlit("deconDoorUpperOpen");
    lemma_plain("deconDoorUpperOpen"@);
    reveal_strlit("deconDoorLowerOpen");
    lemma_plain("deconDoorLowerOpen"@);
    reveal_strlit("hqHudSystemType_CompletedConsoles");
    lemma_plain("hqHudSystemType_CompletedConsoles"@);
    reveal_strlit("HudOverrideSystemType_isActive");
    lemma_plain("HudOverrideSystemType_isActive"@);
    reveal_strlit("planetSurveillanceMinigame_currentCamera");
    lemma_plain("planetSurveillanceMinigame_currentCamera"@);
    reveal_strlit("planetSurveillanceMinigame_camarasCount");
    lemma_plain("planetSurveillanceMinigame_camarasCount"@);
    reveal_strlit("surveillanceMinigame_FilteredRoomsCount");
    lemma_plain("surveillanceMinigame_FilteredRoomsCount"@);
    reveal_strlit("lightRadius");
    lemma_plain("lightRadius"@);
    reveal_strlit("palette_playercolor");
    lemma_plain("palette_playercolor"@);
}

proof fn lemma_keys_8()
    ensures
        is_key("palette_shadowColor"@, 19112108104114),
        is_key("playerControl_GameOptions"@, 25112097108115),
        is_key("gameoptionsData"@, 15103109105097),
        is_key("gameOptions_MapId"@, 17103109111100),
        is_key("gameOptions_MaxPLayers"@, 22103109095115),
        is_key("serverManager_currentServer"@, 27115114095114),
        is_key("showModStampFunc"@, 16115111116099),
        is_key("modLateUpdateFunc"@, 17109100112099),
        is_key("player"@, 6112097121114),
{
    reveal(is_key);
    reveal_with_fuel(free_before, 43);
    reveal_strlit("palette_shadowColor");
    lemma_plain("palette_shadowColor"@);
    reveal_strlit("playerControl_GameOptions");
    lemma_plain("playerControl_GameOptions"@);
    reveal_strlit("gameoptionsData");
    lemma_plain("gameoptionsData"@);
    reveal_strlit("gameOptions_MapId");
    lemma_plain("gameOptions_MapId"@);
    reveal_strlit("gameOptions_MaxPLayers");
    lemma_plain("gameOptions_MaxPLayers"@);
    reveal_strlit("serverManager_currentServer");
    lemma_plain("serverManager_currentServer"@);
    reveal_strlit("showModStampFunc");
    lemma_plain("showModStampFunc"@);
    reveal_strlit("modLateUpdateFunc");
    lemma_plain("modLateUpdateFunc"@);
    reveal_strlit("player");
    lemma_plain("player"@);
}

proof fn lemma_keys_9()
    ensures
        is_key("signatures"@, 10115103116115),
        is_key("oldMeetingHud"@, 13111100116100),
        is_key("disableWriting"@, 14100115087103),
        is_key("newGameOptions"@, 14110119079115),
{
    reveal(is_key);
    reveal_with_fuel(free_before, 43);
    reveal_strlit("signatures");
    lemma_plain("signatures"@);
    reveal_strlit("oldMeetingHud");
    lemma_plain("oldMeetingHud"@);
    reveal_strlit("disableWriting");
    lemma_plain("disableWriting"@);
    reveal_strlit("newGameOptions");
    lemma_plain("newGameOptions"@);
}

proof fn lemma_outfit(a: Outfit, b: Outfit)
    ensures
        same_value(a.json(), b.json()) == a.says_same(b),
        plain_keys(a.json()),
{
    lemma_keys_1();
    let m = no_members();
    let n = no_members();
    lemma_start();
    lemma_numbers(a.color_id@, b.color_id@);
    lemma_member(
        m,
        n,
        "colorId"@,
        7099108111100,
        numbers_json(a.color_id@),
        numbers_json(b.color_id@),
    );
    let m = m.push(("colorId"@, numbers_json(a.color_id@)));
    let n = n.push(("colorId"@, numbers_json(b.color_id@)));
    lemma_numbers(a.hat_id@, b.hat_id@);
    lemma_member(m, n, "hatId"@, 5104116116100, numbers_json(a.hat_id@), numbers_json(b.hat_id@));
    let m = m.push(("hatId"@, numbers_json(a.hat_id@)));
    let n = n.push(("hatId"@, numbers_json(b.hat_id@)));
    lemma_numbers(a.skin_id@, b.skin_id@);
    lemma_member(
        m,
        n,
        "skinId"@,
        6115105110100,
        numbers_json(a.skin_id@),
        numbers_json(b.skin_id@),
    );
    let m = m.push(("skinId"@, numbers_json(a.skin_id@)));
    let n = n.push(("skinId"@, numbers_json(b.skin_id@)));
    lemma_numbers(a.visor_id@, b.visor_id@);
    lemma_member(
        m,
        n,
        "visorId"@,
        7118115111100,
        numbers_json(a.visor_id@),
        numbers_json(b.visor_id@),
    );
    let m = m.push(("visorId"@, numbers_json(a.visor_id@)));
    let n = n.push(("visorId"@, numbers_json(b.visor_id@)));
    lemma_numbers(a.player_name@, b.player_name@);
    lemma_member(
        m,
        n,
        "playerName"@,
        10112097114101,
        numbers_json(a.player_name@),
        numbers_json(b.player_name@),
    );
    let m = m.push(("playerName"@, numbers_json(a.player_name@)));
    let n = n.push(("playerName"@, numbers_json(b.player_name@)));
    lemma_whole(m, n);
}

proof fn lemma_client(a: InnerNetClient, b: InnerNetClient)
    ensures
        same_value(a.json(), b.json()) == a.says_same(b),
        plain_keys(a.json()),
{
    lemma_keys_1();
    lemma_keys_2();
    let m = no_members();
    let n = no_members();
    lemma_start();
    lemma_numbers(a.base@, b.base@);
    lemma_member(m, n, "base"@, 4098115115101, numbers_json(a.base@), numbers_json(b.base@));
    let m = m.push(("base"@, numbers_json(a.base@)));
    let n = n.push(("base"@, numbers_json(b.base@)));
    lemma_member(
        m,
        n,
        "networkAddress"@,
        14110116065115,
        JsonView::Integer(a.network_address),
        JsonView::Integer(b.network_address),
    );
    let m = m.push(("networkAddress"@, JsonView::Integer(a.network_address)));
    let n = n.push(("networkAddress"@, JsonView::Integer(b.network_address)));
    lemma_member(
        m,
        n,
        "networkPort"@,
        11110116114116,
        JsonView::Integer(a.network_port),
        JsonView::Integer(b.network_port),
    );
    let m = m.push(("networkPort"@, JsonView::Integer(a.network_port)));
    let n = n.push(("networkPort"@, JsonView::Integer(b.network_port)));
    lemma_member(
        m,
        n,
        "gameMode"@,
        8103109077101,
        JsonView::Integer(a.game_mode),
        JsonView::Integer(b.game_mode),
    );
    let m = m.push(("gameMode"@, JsonView::Integer(a.game_mode)));
    let n = n.push(("gameMode"@, JsonView::Integer(b.game_mode)));
    lemma_member(
        m,
        n,
        "gameId"@,
        6103109101100,
        JsonView::Integer(a.game_id),
        JsonView::Integer(b.game_id),
    );
    let m = m.push(("gameId"@, JsonView::Integer(a.game_id)));
    let n = n.push(("gameId"@, JsonView::Integer(b.game_id)));
    lemma_member(
        m,
        n,
        "hostId"@,
        6104115116100,
        JsonView::Integer(a.host_id),
        JsonView::Integer(b.host_id),
    );
    let m = m.push(("hostId"@, JsonView::Integer(a.host_id)));
    let n = n.push(("hostId"@, JsonView::Integer(b.host_id)));
    lemma_member(
        m,
        n,
        "clientId"@,
        8099105110100,
        JsonView::Integer(a.client_id),
        JsonView::Integer(b.client_id),
    );
    let m = m.push(("clientId"@, JsonView::Integer(a.client_id)));
    let n = n.push(("clientId"@, JsonView::Integer(b.client_id)));
    lemma_member(
        m,
        n,
        "gameState"@,
        9103109083101,
        JsonView::Integer(a.game_state),
        JsonView::Integer(b.game_state),
    );
    let m = m.push(("gameState"@, JsonView::Integer(a.game_state)));
    let n = n.push(("gameState"@, JsonView::Integer(b.game_state)));
    lemma_member(
        m,
        n,
        "onlineScene"@,
        11111108101101,
        JsonView::Integer(a.online_scene),
        JsonView::Integer(b.online_scene),
    );
    let m = m.push(("onlineScene"@, JsonView::Integer(a.online_scene)));
    let n = n.push(("onlineScene"@, JsonView::Integer(b.online_scene)));
    lemma_member(
        m,
        n,
        "mainMenuScene"@,
        13109105110101,
        JsonView::Integer(a.main_menu_scene),
        JsonView::Integer(b.main_menu_scene),
    );
    let m = m.push(("mainMenuScene"@, JsonView::Integer(a.main_menu_scene)));
    let n = n.push(("mainMenuScene"@, JsonView::Integer(b.main_menu_scene)));
    lemma_whole(m, n);
}

proof fn lemma_signatures(a: Signatures, b: Signatures)
    ensures
        same_value(a.json(), b.json()) == a.says_same(b),
        plain_keys(a.json()),
{
    lemma_keys_2();
    lemma_keys_3();
    lemma_keys_4();
    let m = no_members();
    let n = no_members();
    lemma_start();
    lemma_signature(a.inner_net_client@, b.inner_net_client@);
    lemma_member(
        m,
        n,
        "innerNetClient"@,
        14105110116116,
        signature_json(a.inner_net_client@),
        signature_json(b.inner_net_client@),
    );
    let m = m.push(("innerNetClient"@, signature_json(a.inner_net_client@)));
    let n = n.push(("innerNetClient"@, signature_json(b.inner_net_client@)));
    lemma_signature(a.meeting_hud@, b.meeting_hud@);
    lemma_member(
        m,
        n,
        "meetingHud"@,
        10109101110100,
        signature_json(a.meeting_hud@),
        signature_json(b.meeting_hud@),
    );
    let m = m.push(("meetingHud"@, signature_json(a.meeting_hud@)));
    let n = n.push(("meetingHud"@, signature_json(b.meeting_hud@)));
    lemma_signature(a.game_data@, b.game_data@);
    lemma_member(
        m,
        n,
        "gameData"@,
        8103109068097,
        signature_json(a.game_data@),
        signature_json(b.game_data@),
    );
    let m = m.push(("gameData"@, signature_json(a.game_data@)));
    let n = n.push(("gameData"@, signature_json(b.game_data@)));
    lemma_signature(a.ship_status@, b.ship_status@);
    lemma_member(
        m,
        n,
        "shipStatus"@,
        10115105116115,
        signature_json(a.ship_status@),
        signature_json(b.ship_status@),
    );
    let m = m.push(("shipStatus"@, signature_json(a.ship_status@)));
    let n = n.push(("shipStatus"@, signature_json(b.ship_status@)));
    lemma_signature(a.mini_game@, b.mini_game@);
    lemma_member(
        m,
        n,
        "miniGame"@,
        8109110071101,
        signature_json(a.mini_game@),
        signature_json(b.mini_game@),
    );
    let m = m.push(("miniGame"@, signature_json(a.mini_game@)));
    let n = n.push(("miniGame"@, signature_json(b.mini_game@)));
    lemma_signature(a.palette@, b.palette@);
    lemma_member(
        m,
        n,
        "palette"@,
        7112108101101,
        signature_json(a.palette@),
        signature_json(b.palette@),
    );
    let m = m.push(("palette"@, signature_json(a.palette@)));
    let n = n.push(("palette"@, signature_json(b.palette@)));
    lemma_signature(a.player_control@, b.player_control@);
    lemma_member(
        m,
        n,
        "playerControl"@,
        13112097067108,
        signature_json(a.player_control@),
        signature_json(b.player_control@),
    );
    let m = m.push(("playerControl"@, signature_json(a.player_control@)));
    let n = n.push(("playerControl"@, signature_json(b.player_control@)));
    lemma_signature(a.show_mod_stamp@, b.show_mod_stamp@);
    lemma_member(
        m,
        n,
        "showModStamp"@,
        12115111100112,
        signature_json(a.show_mod_stamp@),
        signature_json(b.show_mod_stamp@),
    );
    let m = m.push(("showModStamp"@, signature_json(a.show_mod_stamp@)));
    let n = n.push(("showModStamp"@, signature_json(b.show_mod_stamp@)));
    lemma_signature(a.connect_func@, b.connect_func@);
    lemma_member(
        m,
        n,
        "connectFunc"@,
        11099110099099,
        signature_json(a.connect_func@),
        signature_json(b.connect_func@),
    );
    let m = m.push(("connectFunc"@, signature_json(a.connect_func@)));
    let n = n.push(("connectFunc"@, signature_json(b.connect_func@)));
    lemma_signature(a.fixed_update_func@, b.fixed_update_func@);
    lemma_member(
        m,
        n,
        "fixedUpdateFunc"@,
        15102120100099,
        signature_json(a.fixed_update_func@),
        signature_json(b.fixed_update_func@),
    );
    let m = m.push(("fixedUpdateFunc"@, signature_json(a.fixed_update_func@)));
    let n = n.push(("fixedUpdateFunc"@, signature_json(b.fixed_update_func@)));
    lemma_signature(a.ping_message_string@, b.ping_message_string@);
    lemma_member(
        m,
        n,
        "pingMessageString"@,
        17112110097103,
        signature_json(a.ping_message_string@),
        signature_json(b.ping_message_string@),
    );
    let m = m.push(("pingMessageString"@, signature_json(a.ping_message_string@)));
    let n = n.push(("pingMessageString"@, signature_json(b.ping_message_string@)));
    lemma_signature(a.mod_late_update@, b.mod_late_update@);
    lemma_member(
        m,
        n,
        "modLateUpdate"@,
        13109100101101,
        signature_json(a.mod_late_update@),
        signature_json(b.mod_late_update@),
    );
    let m = m.push(("modLateUpdate"@, signature_json(a.mod_late_update@)));
    let n = n.push(("modLateUpdate"@, signature_json(b.mod_late_update@)));
    lemma_signature(a.server_manager@, b.server_manager@);
    lemma_member(
        m,
        n,
        "serverManager"@,
        13115114077114,
        signature_json(a.server_manager@),
        signature_json(b.server_manager@),
    );
    let m = m.push(("serverManager"@, signature_json(a.server_manager@)));
    let n = n.push(("serverManager"@, signature_json(b.server_manager@)));
    lemma_signature(a.game_options_manager@, b.game_options_manager@);
    lemma_member(
        m,
        n,
        "gameOptionsManager"@,
        18103109110114,
        signature_json(a.game_options_manager@),
        signature_json(b.game_options_manager@),
    );
    let m = m.push(("gameOptionsManager"@, signature_json(a.game_options_manager@)));
    let n = n.push(("gameOptionsManager"@, signature_json(b.game_options_manager@)));
    lemma_whole(m, n);
}

proof fn lemma_player(a: Player, b: Player)
    ensures
        same_value(a.json(), b.json()) == a.says_same(b),
        plain_keys(a.json()),
{
    lemma_keys_2();
    lemma_keys_4();
    lemma_keys_5();
    let m = no_members();
    let n = no_members();
    lemma_start();
    lemma_layout(a.struct_layout@, b.struct_layout@);
    lemma_member(
        m,
        n,
        "struct"@,
        6115114117116,
        layout_json(a.struct_layout@),
        layout_json(b.struct_layout@),
    );
    let m = m.push(("struct"@, layout_json(a.struct_layout@)));
    let n = n.push(("struct"@, layout_json(b.struct_layout@)));
    lemma_numbers(a.is_dummy@, b.is_dummy@);
    lemma_member(
        m,
        n,
        "isDummy"@,
        7105068117121,
        numbers_json(a.is_dummy@),
        numbers_json(b.is_dummy@),
    );
    let m = m.push(("isDummy"@, numbers_json(a.is_dummy@)));
    let n = n.push(("isDummy"@, numbers_json(b.is_dummy@)));
    lemma_numbers(a.is_local@, b.is_local@);
    lemma_member(
        m,
        n,
        "isLocal"@,
        7105076111108,
        numbers_json(a.is_local@),
        numbers_json(b.is_local@),
    );
    let m = m.push(("isLocal"@, numbers_json(a.is_local@)));
    let n = n.push(("isLocal"@, numbers_json(b.is_local@)));
    lemma_numbers(a.local_x@, b.local_x@);
    lemma_member(
        m,
        n,
        "localX"@,
        6108099097088,
        numbers_json(a.local_x@),
        numbers_json(b.local_x@),
    );
    let m = m.push(("localX"@, numbers_json(a.local_x@)));
    let n = n.push(("localX"@, numbers_json(b.local_x@)));
    lemma_numbers(a.local_y@, b.local_y@);
    lemma_member(
        m,
        n,
        "localY"@,
        6108099097089,
        numbers_json(a.local_y@),
        numbers_json(b.local_y@),
    );
    let m = m.push(("localY"@, numbers_json(a.local_y@)));
    let n = n.push(("localY"@, numbers_json(b.local_y@)));
    lemma_numbers(a.remote_x@, b.remote_x@);
    lemma_member(
        m,
        n,
        "remoteX"@,
        7114109111088,
        numbers_json(a.remote_x@),
        numbers_json(b.remote_x@),
    );
    let m = m.push(("remoteX"@, numbers_json(a.remote_x@)));
    let n = n.push(("remoteX"@, numbers_json(b.remote_x@)));
    lemma_numbers(a.remote_y@, b.remote_y@);
    lemma_member(
        m,
        n,
        "remoteY"@,
        7114109111089,
        numbers_json(a.remote_y@),
        numbers_json(b.remote_y@),
    );
    let m = m.push(("remoteY"@, numbers_json(a.remote_y@)));
    let n = n.push(("remoteY"@, numbers_json(b.remote_y@)));
    lemma_member(
        m,
        n,
        "bufferLength"@,
        12098102076104,
        JsonView::Integer(a.buffer_length),
        JsonView::Integer(b.buffer_length),
    );
    let m = m.push(("bufferLength"@, JsonView::Integer(a.buffer_length)));
    let n = n.push(("bufferLength"@, JsonView::Integer(b.buffer_length)));
    lemma_numbers(a.offsets@, b.offsets@);
    lemma_member(
        m,
        n,
        "offsets"@,
        7111102115115,
        numbers_json(a.offsets@),
        numbers_json(b.offsets@),
    );
    let m = m.push(("offsets"@, numbers_json(a.offsets@)));
    let n = n.push(("offsets"@, numbers_json(b.offsets@)));
    lemma_numbers(a.in_vent@, b.in_vent@);
    lemma_member(
        m,
        n,
        "inVent"@,
        6105086101116,
        numbers_json(a.in_vent@),
        numbers_json(b.in_vent@),
    );
    let m = m.push(("inVent"@, numbers_json(a.in_vent@)));
    let n = n.push(("inVent"@, numbers_json(b.in_vent@)));
    lemma_numbers(a.client_id@, b.client_id@);
    lemma_member(
        m,
        n,
        "clientId"@,
        8099105110100,
        numbers_json(a.client_id@),
        numbers_json(b.client_id@),
    );
    let m = m.push(("clientId"@, numbers_json(a.client_id@)));
    let n = n.push(("clientId"@, numbers_json(b.client_id@)));
    lemma_numbers(a.current_outfit@, b.current_outfit@);
    lemma_member(
        m,
        n,
        "currentOutfit"@,
        13099114116116,
        numbers_json(a.current_outfit@),
        numbers_json(b.current_outfit@),
    );
    let m = m.push(("currentOutfit"@, numbers_json(a.current_outfit@)));
    let n = n.push(("currentOutfit"@, numbers_json(b.current_outfit@)));
    lemma_numbers(a.role_team@, b.role_team@);
    lemma_member(
        m,
        n,
        "roleTeam"@,
        8114108084109,
        numbers_json(a.role_team@),
        numbers_json(b.role_team@),
    );
    let m = m.push(("roleTeam"@, numbers_json(a.role_team@)));
    let n = n.push(("roleTeam"@, numbers_json(b.role_team@)));
    lemma_numbers(a.name_text@, b.name_text@);
    lemma_member(
        m,
        n,
        "nameText"@,
        8110109084116,
        numbers_json(a.name_text@),
        numbers_json(b.name_text@),
    );
    let m = m.push(("nameText"@, numbers_json(a.name_text@)));
    let n = n.push(("nameText"@, numbers_json(b.name_text@)));
    lemma_outfit(a.outfit, b.outfit);
    lemma_member(m, n, "outfit"@, 6111116102116, a.outfit.json(), b.outfit.json());
    let m = m.push(("outfit"@, a.outfit.json()));
    let n = n.push(("outfit"@, b.outfit.json()));
    lemma_whole(m, n);
}

#[verifier::rlimit(40)]
proof fn lemma_offsets(a: Offsets, b: Offsets)
    ensures
        same_value(a.json(), b.json()) == a.says_same(b),
        plain_keys(a.json()),
{
    lemma_keys_2();
    lemma_keys_3();
    lemma_keys_5();
    lemma_keys_6();
    lemma_keys_7();
    lemma_keys_8();
    lemma_keys_9();
    let m = no_members();
    let n = no_members();
    lemma_start();
    lemma_numbers(a.meeting_hud@, b.meeting_hud@);
    lemma_member(
        m,
        n,
        "meetingHud"@,
        10109101110100,
        numbers_json(a.meeting_hud@),
        numbers_json(b.meeting_hud@),
    );
    let m = m.push(("meetingHud"@, numbers_json(a.meeting_hud@)));
    let n = n.push(("meetingHud"@, numbers_json(b.meeting_hud@)));
    lemma_numbers(a.object_cache_ptr@, b.object_cache_ptr@);
    lemma_member(
        m,
        n,
        "objectCachePtr"@,
        14111106097114,
        numbers_json(a.object_cache_ptr@),
        numbers_json(b.object_cache_ptr@),
    );
    let m = m.push(("objectCachePtr"@, numbers_json(a.object_cache_ptr@)));
    let n = n.push(("objectCachePtr"@, numbers_json(b.object_cache_ptr@)));
    lemma_numbers(a.meeting_hud_state@, b.meeting_hud_state@);
    lemma_member(
        m,
        n,
        "meetingHudState"@,
        15109101072101,
        numbers_json(a.meeting_hud_state@),
        numbers_json(b.meeting_hud_state@),
    );
    let m = m.push(("meetingHudState"@, numbers_json(a.meeting_hud_state@)));
    let n = n.push(("meetingHudState"@, numbers_json(b.meeting_hud_state@)));
    lemma_numbers(a.all_players_ptr@, b.all_players_ptr@);
    lemma_member(
        m,
        n,
        "allPlayersPtr"@,
        13097108121114,
        numbers_json(a.all_players_ptr@),
        numbers_json(b.all_players_ptr@),
    );
    let m = m.push(("allPlayersPtr"@, numbers_json(a.all_players_ptr@)));
    let n = n.push(("allPlayersPtr"@, numbers_json(b.all_players_ptr@)));
    lemma_numbers(a.all_players@, b.all_players@);
    lemma_member(
        m,
        n,
        "allPlayers"@,
        10097108097115,
        numbers_json(a.all_players@),
        numbers_json(b.all_players@),
    );
    let m = m.push(("allPlayers"@, numbers_json(a.all_players@)));
    let n = n.push(("allPlayers"@, numbers_json(b.all_players@)));
    lemma_numbers(a.player_count@, b.player_count@);
    lemma_member(
        m,
        n,
        "playerCount"@,
        11112097114116,
        numbers_json(a.player_count@),
        numbers_json(b.player_count@),
    );
    let m = m.push(("playerCount"@, numbers_json(a.player_count@)));
    let n = n.push(("playerCount"@, numbers_json(b.player_count@)));
    lemma_member(
        m,
        n,
        "playerAddrPtr"@,
        13112097065114,
        JsonView::Integer(a.player_addr_ptr),
        JsonView::Integer(b.player_addr_ptr),
    );
    let m = m.push(("playerAddrPtr"@, JsonView::Integer(a.player_addr_ptr)));
    let n = n.push(("playerAddrPtr"@, JsonView::Integer(b.player_addr_ptr)));
    lemma_numbers(a.ship_status@, b.ship_status@);
    lemma_member(
        m,
        n,
        "shipStatus"@,
        10115105116115,
        numbers_json(a.ship_status@),
        numbers_json(b.ship_status@),
    );
    let m = m.push(("shipStatus"@, numbers_json(a.ship_status@)));
    let n = n.push(("shipStatus"@, numbers_json(b.ship_status@)));
    lemma_numbers(a.ship_status_systems@, b.ship_status_systems@);
    lemma_member(
        m,
        n,
        "shipStatus_systems"@,
        18115105115115,
        numbers_json(a.ship_status_systems@),
        numbers_json(b.ship_status_systems@),
    );
    let m = m.push(("shipStatus_systems"@, numbers_json(a.ship_status_systems@)));
    let n = n.push(("shipStatus_systems"@, numbers_json(b.ship_status_systems@)));
    lemma_numbers(a.ship_status_map@, b.ship_status_map@);
    lemma_member(
        m,
        n,
        "shipStatus_map"@,
        14115105116112,
        numbers_json(a.ship_status_map@),
        numbers_json(b.ship_status_map@),
    );
    let m = m.push(("shipStatus_map"@, numbers_json(a.ship_status_map@)));
    let n = n.push(("shipStatus_map"@, numbers_json(b.ship_status_map@)));
    lemma_numbers(a.shipstatus_all_doors@, b.shipstatus_all_doors@);
    lemma_member(
        m,
        n,
        "shipstatus_allDoors"@,
        19115105115115,
        numbers_json(a.shipstatus_all_doors@),
        numbers_json(b.shipstatus_all_doors@),
    );
    let m = m.push(("shipstatus_allDoors"@, numbers_json(a.shipstatus_all_doors@)));
    let n = n.push(("shipstatus_allDoors"@, numbers_json(b.shipstatus_all_doors@)));
    lemma_member(
        m,
        n,
        "door_doorId"@,
        11100111100100,
        JsonView::Integer(a.door_door_id),
        JsonView::Integer(b.door_door_id),
    );
    let m = m.push(("door_doorId"@, JsonView::Integer(a.door_door_id)));
    let n = n.push(("door_doorId"@, JsonView::Integer(b.door_door_id)));
    lemma_member(
        m,
        n,
        "door_isOpen"@,
        11100111105110,
        JsonView::Integer(a.door_is_open),
        JsonView::Integer(b.door_is_open),
    );
    let m = m.push(("door_isOpen"@, JsonView::Integer(a.door_is_open)));
    let n = n.push(("door_isOpen"@, JsonView::Integer(b.door_is_open)));
    lemma_numbers(a.decon_door_upper_open@, b.decon_door_upper_open@);
    lemma_member(
        m,
        n,
        "deconDoorUpperOpen"@,
        18100099085110,
        numbers_json(a.decon_door_upper_open@),
        numbers_json(b.decon_door_upper_open@),
    );
    let m = m.push(("deconDoorUpperOpen"@, numbers_json(a.decon_door_upper_open@)));
    let n = n.push(("deconDoorUpperOpen"@, numbers_json(b.decon_door_upper_open@)));
    lemma_numbers(a.decon_door_lower_open@, b.decon_door_lower_open@);
    lemma_member(
        m,
        n,
        "deconDoorLowerOpen"@,
        18100099076110,
        numbers_json(a.decon_door_lower_open@),
        numbers_json(b.decon_door_lower_open@),
    );
    let m = m.push(("deconDoorLowerOpen"@, numbers_json(a.decon_door_lower_open@)));
    let n = n.push(("deconDoorLowerOpen"@, numbers_json(b.decon_door_lower_open@)));
    lemma_numbers(a.hq_hud_completed_consoles@, b.hq_hud_completed_consoles@);
    lemma_member(
        m,
        n,
        "hqHudSystemType_CompletedConsoles"@,
        33104072067115,
        numbers_json(a.hq_hud_completed_consoles@),
        numbers_json(b.hq_hud_completed_consoles@),
    );
    let m = m.push(
        ("hqHudSystemType_CompletedConsoles"@, numbers_json(a.hq_hud_completed_consoles@)),
    );
    let n = n.push(
        ("hqHudSystemType_CompletedConsoles"@, numbers_json(b.hq_hud_completed_consoles@)),
    );
    lemma_numbers(a.hud_override_is_active@, b.hud_override_is_active@);
    lemma_member(
        m,
        n,
        "HudOverrideSystemType_isActive"@,
        30072100101101,
        numbers_json(a.hud_override_is_active@),
        numbers_json(b.hud_override_is_active@),
    );
    let m = m.push(("HudOverrideSystemType_isActive"@, numbers_json(a.hud_override_is_active@)));
    let n = n.push(("HudOverrideSystemType_isActive"@, numbers_json(b.hud_override_is_active@)));
    lemma_numbers(a.mini_game@, b.mini_game@);
    lemma_member(
        m,
        n,
        "miniGame"@,
        8109110071101,
        numbers_json(a.mini_game@),
        numbers_json(b.mini_game@),
    );
    let m = m.push(("miniGame"@, numbers_json(a.mini_game@)));
    let n = n.push(("miniGame"@, numbers_json(b.mini_game@)));
    lemma_numbers(a.planet_surveillance_current_camera@, b.planet_surveillance_current_camera@);
    lemma_member(
        m,
        n,
        "planetSurveillanceMinigame_currentCamera"@,
        40112097110097,
        numbers_json(a.planet_surveillance_current_camera@),
        numbers_json(b.planet_surveillance_current_camera@),
    );
    let m = m.push(
        ("planetSurveillanceMinigame_currentCamera"@, numbers_json(a.planet_surveillance_current_camera@)),
    );
    let n = n.push(
        ("planetSurveillanceMinigame_currentCamera"@, numbers_json(b.planet_surveillance_current_camera@)),
    );
    lemma_numbers(a.planet_surveillance_camaras_count@, b.planet_surveillance_camaras_count@);
    lemma_member(
        m,
        n,
        "planetSurveillanceMinigame_camarasCount"@,
        39112097105116,
        numbers_json(a.planet_surveillance_camaras_count@),
        numbers_json(b.planet_surveillance_camaras_count@),
    );
    let m = m.push(
        ("planetSurveillanceMinigame_camarasCount"@, numbers_json(a.planet_surveillance_camaras_count@)),
    );
    let n = n.push(
        ("planetSurveillanceMinigame_camarasCount"@, numbers_json(b.planet_surveillance_camaras_count@)),
    );
    lemma_numbers(a.surveillance_filtered_rooms_count@, b.surveillance_filtered_rooms_count@);
    lemma_member(
        m,
        n,
        "surveillanceMinigame_FilteredRoomsCount"@,
        39115114101116,
        numbers_json(a.surveillance_filtered_rooms_count@),
        numbers_json(b.surveillance_filtered_rooms_count@),
    );
    let m = m.push(
        ("surveillanceMinigame_FilteredRoomsCount"@, numbers_json(a.surveillance_filtered_rooms_count@)),
    );
    let n = n.push(
        ("surveillanceMinigame_FilteredRoomsCount"@, numbers_json(b.surveillance_filtered_rooms_count@)),
    );
    lemma_numbers(a.light_radius@, b.light_radius@);
    lemma_member(
        m,
        n,
        "lightRadius"@,
        11108103082115,
        numbers_json(a.light_radius@),
        numbers_json(b.light_radius@),
    );
    let m = m.push(("lightRadius"@, numbers_json(a.light_radius@)));
    let n = n.push(("lightRadius"@, numbers_json(b.light_radius@)));
    lemma_numbers(a.palette@, b.palette@);
    lemma_member(
        m,
        n,
        "palette"@,
        7112108101101,
        numbers_json(a.palette@),
        numbers_json(b.palette@),
    );
    let m = m.push(("palette"@, numbers_json(a.palette@)));
    let n = n.push(("palette"@, numbers_json(b.palette@)));
    lemma_numbers(a.palette_playercolor@, b.palette_playercolor@);
    lemma_member(
        m,
        n,
        "palette_playercolor"@,
        19112108108114,
        numbers_json(a.palette_playercolor@),
        numbers_json(b.palette_playercolor@),
    );
    let m = m.push(("palette_playercolor"@, numbers_json(a.palette_playercolor@)));
    let n = n.push(("palette_playercolor"@, numbers_json(b.palette_playercolor@)));
    lemma_numbers(a.palette_shadow_color@, b.palette_shadow_color@);
    lemma_member(
        m,
        n,
        "palette_shadowColor"@,
        19112108104114,
        numbers_json(a.palette_shadow_color@),
        numbers_json(b.palette_shadow_color@),
    );
    let m = m.push(("palette_shadowColor"@, numbers_json(a.palette_shadow_color@)));
    let n = n.push(("palette_shadowColor"@, numbers_json(b.palette_shadow_color@)));
    lemma_numbers(a.player_control_game_options@, b.player_control_game_options@);
    lemma_member(
        m,
        n,
        "playerControl_GameOptions"@,
        25112097108115,
        numbers_json(a.player_control_game_options@),
        numbers_json(b.player_control_game_options@),
    );
    let m = m.push(("playerControl_GameOptions"@, numbers_json(a.player_control_game_options@)));
    let n = n.push(("playerControl_GameOptions"@, numbers_json(b.player_control_game_options@)));
    lemma_numbers(a.gameoptions_data@, b.gameoptions_data@);
    lemma_member(
        m,
        n,
        "gameoptionsData"@,
        15103109105097,
        numbers_json(a.gameoptions_data@),
        numbers_json(b.gameoptions_data@),
    );
    let m = m.push(("gameoptionsData"@, numbers_json(a.gameoptions_data@)));
    let n = n.push(("gameoptionsData"@, numbers_json(b.gameoptions_data@)));
    lemma_numbers(a.game_options_map_id@, b.game_options_map_id@);
    lemma_member(
        m,
        n,
        "gameOptions_MapId"@,
        17103109111100,
        numbers_json(a.game_options_map_id@),
        numbers_json(b.game_options_map_id@),
    );
    let m = m.push(("gameOptions_MapId"@, numbers_json(a.game_options_map_id@)));
    let n = n.push(("gameOptions_MapId"@, numbers_json(b.game_options_map_id@)));
    lemma_numbers(a.game_options_max_players@, b.game_options_max_players@);
    lemma_member(
        m,
        n,
        "gameOptions_MaxPLayers"@,
        22103109095115,
        numbers_json(a.game_options_max_players@),
        numbers_json(b.game_options_max_players@),
    );
    let m = m.push(("gameOptions_MaxPLayers"@, numbers_json(a.game_options_max_players@)));
    let n = n.push(("gameOptions_MaxPLayers"@, numbers_json(b.game_options_max_players@)));
    lemma_numbers(a.server_manager_current_server@, b.server_manager_current_server@);
    lemma_member(
        m,
        n,
        "serverManager_currentServer"@,
        27115114095114,
        numbers_json(a.server_manager_current_server@),
        numbers_json(b.server_manager_current_server@),
    );
    let m = m.push(
        ("serverManager_currentServer"@, numbers_json(a.server_manager_current_server@)),
    );
    let n = n.push(
        ("serverManager_currentServer"@, numbers_json(b.server_manager_current_server@)),
    );
    lemma_member(
        m,
        n,
        "connectFunc"@,
        11099110099099,
        JsonView::Integer(a.connect_func),
        JsonView::Integer(b.connect_func),
    );
    let m = m.push(("connectFunc"@, JsonView::Integer(a.connect_func)));
    let n = n.push(("connectFunc"@, JsonView::Integer(b.connect_func)));
    lemma_member(
        m,
        n,
        "showModStampFunc"@,
        16115111116099,
        JsonView::Integer(a.show_mod_stamp_func),
        JsonView::Integer(b.show_mod_stamp_func),
    );
    let m = m.push(("showModStampFunc"@, JsonView::Integer(a.show_mod_stamp_func)));
    let n = n.push(("showModStampFunc"@, JsonView::Integer(b.show_mod_stamp_func)));
    lemma_member(
        m,
        n,
        "modLateUpdateFunc"@,
        17109100112099,
        JsonView::Integer(a.mod_late_update_func),
        JsonView::Integer(b.mod_late_update_func),
    );
    let m = m.push(("modLateUpdateFunc"@, JsonView::Integer(a.mod_late_update_func)));
    let n = n.push(("modLateUpdateFunc"@, JsonView::Integer(b.mod_late_update_func)));
    lemma_member(
        m,
        n,
        "fixedUpdateFunc"@,
        15102120100099,
        JsonView::Integer(a.fixed_update_func),
        JsonView::Integer(b.fixed_update_func),
    );
    let m = m.push(("fixedUpdateFunc"@, JsonView::Integer(a.fixed_update_func)));
    let n = n.push(("fixedUpdateFunc"@, JsonView::Integer(b.fixed_update_func)));
    lemma_member(
        m,
        n,
        "pingMessageString"@,
        17112110097103,
        JsonView::Integer(a.ping_message_string),
        JsonView::Integer(b.ping_message_string),
    );
    let m = m.push(("pingMessageString"@, JsonView::Integer(a.ping_message_string)));
    let n = n.push(("pingMessageString"@, JsonView::Integer(b.ping_message_string)));
    lemma_client(a.inner_net_client, b.inner_net_client);
    lemma_member(
        m,
        n,
        "innerNetClient"@,
        14105110116116,
        a.inner_net_client.json(),
        b.inner_net_client.json(),
    );
    let m = m.push(("innerNetClient"@, a.inner_net_client.json()));
    let n = n.push(("innerNetClient"@, b.inner_net_client.json()));
    lemma_player(a.player, b.player);
    lemma_member(m, n, "player"@, 6112097121114, a.player.json(), b.player.json());
    let m = m.push(("player"@, a.player.json()));
    let n = n.push(("player"@, b.player.json()));
    lemma_signatures(a.signatures, b.signatures);
    lemma_member(m, n, "signatures"@, 10115103116115, a.signatures.json(), b.signatures.json());
    let m = m.push(("signatures"@, a.signatures.json()));
    let n = n.push(("signatures"@, b.signatures.json()));
    lemma_member(
        m,
        n,
        "oldMeetingHud"@,
        13111100116100,
        JsonView::Bool(a.old_meeting_hud),
        JsonView::Bool(b.old_meeting_hud),
    );
    let m = m.push(("oldMeetingHud"@, JsonView::Bool(a.old_meeting_hud)));
    let n = n.push(("oldMeetingHud"@, JsonView::Bool(b.old_meeting_hud)));
    lemma_member(
        m,
        n,
        "disableWriting"@,
        14100115087103,
        JsonView::Bool(a.disable_writing),
        JsonView::Bool(b.disable_writing),
    );
    let m = m.push(("disableWriting"@, JsonView::Bool(a.disable_writing)));
    let n = n.push(("disableWriting"@, JsonView::Bool(b.disable_writing)));
    lemma_member(
        m,
        n,
        "newGameOptions"@,
        14110119079115,
        JsonView::Bool(a.new_game_options),
        JsonView::Bool(b.new_game_options),
    );
    let m = m.push(("newGameOptions"@, JsonView::Bool(a.new_game_options)));
    let n = n.push(("newGameOptions"@, JsonView::Bool(b.new_game_options)));
    lemma_whole(m, n);
}

/// The value that an object has under a key.
pub open spec fn under(value: JsonView, key: Seq<char>) -> Option<JsonView> {
    member(value->Object_0, key)
}

proof fn lemma_under(m: MembersView, i: int)
    requires
        aligned(m, m),
        0 <= i < m.len(),
    ensures
        member(m, m[i].0) == Some(m[i].1),
{
    reveal(aligned);
    lemma_found(m, i);
}

#[verifier::rlimit(40)]
proof fn lemma_outfit_keys(a: Outfit)
    ensures
        aligned(a.json()->Object_0, a.json()->Object_0),
{
    lemma_keys_1();
    let m = no_members();
    lemma_start();
    lemma_member(
        m,
        m,
        "colorId"@,
        7099108111100,
        numbers_json(a.color_id@),
        numbers_json(a.color_id@),
    );
    let m = m.push(("colorId"@, numbers_json(a.color_id@)));
    lemma_member(m, m, "hatId"@, 5104116116100, numbers_json(a.hat_id@), numbers_json(a.hat_id@));
    let m = m.push(("hatId"@, numbers_json(a.hat_id@)));
    lemma_member(
        m,
        m,
        "skinId"@,
        6115105110100,
        numbers_json(a.skin_id@),
        numbers_json(a.skin_id@),
    );
    let m = m.push(("skinId"@, numbers_json(a.skin_id@)));
    lemma_member(
        m,
        m,
        "visorId"@,
        7118115111100,
        numbers_json(a.visor_id@),
        numbers_json(a.visor_id@),
    );
    let m = m.push(("visorId"@, numbers_json(a.visor_id@)));
    lemma_member(
        m,
        m,
        "playerName"@,
        10112097114101,
        numbers_json(a.player_name@),
        numbers_json(a.player_name@),
    );
    let m = m.push(("playerName"@, numbers_json(a.player_name@)));
}

/// Every field of an outfit is written under its own key.
#[verifier::rlimit(40)]
pub proof fn outfit_are_written_under_their_keys(a: Outfit)
    ensures
        a.json() is Object,
        a.json()->Object_0.len() == 5,
        under(a.json(), "colorId"@) == Some(numbers_json(a.color_id@)),
        under(a.json(), "hatId"@) == Some(numbers_json(a.hat_id@)),
        under(a.json(), "skinId"@) == Some(numbers_json(a.skin_id@)),
        under(a.json(), "visorId"@) == Some(numbers_json(a.visor_id@)),
        under(a.json(), "playerName"@) == Some(numbers_json(a.player_name@)),
{
    lemma_outfit_keys(a);
    let m = a.json()->Object_0;
    assert(m[0].0 == "colorId"@);
    lemma_under(m, 0);
    assert(m[1].0 == "hatId"@);
    lemma_under(m, 1);
    assert(m[2].0 == "skinId"@);
    lemma_under(m, 2);
    assert(m[3].0 == "visorId"@);
    lemma_under(m, 3);
    assert(m[4].0 == "playerName"@);
    lemma_under(m, 4);
}

#[verifier::rlimit(40)]
proof fn lemma_client_keys(a: InnerNetClient)
    ensures
        aligned(a.json()->Object_0, a.json()->Object_0),
{
    lemma_keys_1();
    lemma_keys_2();
    let m = no_members();
    lemma_start();
    lemma_member(m, m, "base"@, 4098115115101, numbers_json(a.base@), numbers_json(a.base@));
    let m = m.push(("base"@, numbers_json(a.base@)));
    lemma_member(
        m,
        m,
        "networkAddress"@,
        14110116065115,
        JsonView::Integer(a.network_address),
        JsonView::Integer(a.network_address),
    );
    let m = m.push(("networkAddress"@, JsonView::Integer(a.network_address)));
    lemma_member(
        m,
        m,
        "networkPort"@,
        11110116114116,
        JsonView::Integer(a.network_port),
        JsonView::Integer(a.network_port),
    );
    let m = m.push(("networkPort"@, JsonView::Integer(a.network_port)));
    lemma_member(
        m,
        m,
        "gameMode"@,
        8103109077101,
        JsonView::Integer(a.game_mode),
        JsonView::Integer(a.game_mode),
    );
    let m = m.push(("gameMode"@, JsonView::Integer(a.game_mode)));
    lemma_member(
        m,
        m,
        "gameId"@,
        6103109101100,
        JsonView::Integer(a.game_id),
        JsonView::Integer(a.game_id),
    );
    let m = m.push(("gameId"@, JsonView::Integer(a.game_id)));
    lemma_member(
        m,
        m,
        "hostId"@,
        6104115116100,
        JsonView::Integer(a.host_id),
        JsonView::Integer(a.host_id),
    );
    let m = m.push(("hostId"@, JsonView::Integer(a.host_id)));
    lemma_member(
        m,
        m,
        "clientId"@,
        8099105110100,
        JsonView::Integer(a.client_id),
        JsonView::Integer(a.client_id),
    );
    let m = m.push(("clientId"@, JsonView::Integer(a.client_id)));
    lemma_member(
        m,
        m,
        "gameState"@,
        9103109083101,
        JsonView::Integer(a.game_state),
        JsonView::Integer(a.game_state),
    );
    let m = m.push(("gameState"@, JsonView::Integer(a.game_state)));
    lemma_member(
        m,
        m,
        "onlineScene"@,
        11111108101101,
        JsonView::Integer(a.online_scene),
        JsonView::Integer(a.online_scene),
    );
    let m = m.push(("onlineScene"@, JsonView::Integer(a.online_scene)));
    lemma_member(
        m,
        m,
        "mainMenuScene"@,
        13109105110101,
        JsonView::Integer(a.main_menu_scene),
        JsonView::Integer(a.main_menu_scene),
    );
    let m = m.push(("mainMenuScene"@, JsonView::Integer(a.main_menu_scene)));
}

/// Every field of the client is written under its own key.
#[verifier::rlimit(40)]
pub proof fn client_are_written_under_their_keys(a: InnerNetClient)
    ensures
        a.json() is Object,
        a.json()->Object_0.len() == 10,
        under(a.json(), "base"@) == Some(numbers_json(a.base@)),
        under(a.json(), "networkAddress"@) == Some(JsonView::Integer(a.network_address)),
        under(a.json(), "networkPort"@) == Some(JsonView::Integer(a.network_port)),
        under(a.json(), "gameMode"@) == Some(JsonView::Integer(a.game_mode)),
        under(a.json(), "gameId"@) == Some(JsonView::Integer(a.game_id)),
        under(a.json(), "hostId"@) == Some(JsonView::Integer(a.host_id)),
        under(a.json(), "clientId"@) == Some(JsonView::Integer(a.client_id)),
        under(a.json(), "gameState"@) == Some(JsonView::Integer(a.game_state)),
        under(a.json(), "onlineScene"@) == Some(JsonView::Integer(a.online_scene)),
        under(a.json(), "mainMenuScene"@) == Some(JsonView::Integer(a.main_menu_scene)),
{
    lemma_client_keys(a);
    let m = a.json()->Object_0;
    assert(m[0].0 == "base"@);
    lemma_under(m, 0);
    assert(m[1].0 == "networkAddress"@);
    lemma_under(m, 1);
    assert(m[2].0 == "networkPort"@);
    lemma_under(m, 2);
    assert(m[3].0 == "gameMode"@);
    lemma_under(m, 3);
    assert(m[4].0 == "gameId"@);
    lemma_under(m, 4);
    assert(m[5].0 == "hostId"@);
    lemma_under(m, 5);
    assert(m[6].0 == "clientId"@);
    lemma_under(m, 6);
    assert(m[7].0 == "gameState"@);
    lemma_under(m, 7);
    assert(m[8].0 == "onlineScene"@);
    lemma_under(m, 8);
    assert(m[9].0 == "mainMenuScene"@);
    lemma_under(m, 9);
}

#[verifier::rlimit(40)]
proof fn lemma_signatures_keys(a: Signatures)
    ensures
        aligned(a.json()->Object_0, a.json()->Object_0),
{
    lemma_keys_2();
    lemma_keys_3();
    lemma_keys_4();
    let m = no_members();
    lemma_start();
    lemma_member(
        m,
        m,
        "innerNetClient"@,
        14105110116116,
        signature_json(a.inner_net_client@),
        signature_json(a.inner_net_client@),
    );
    let m = m.push(("innerNetClient"@, signature_json(a.inner_net_client@)));
    lemma_member(
        m,
        m,
        "meetingHud"@,
        10109101110100,
        signature_json(a.meeting_hud@),
        signature_json(a.meeting_hud@),
    );
    let m = m.push(("meetingHud"@, signature_json(a.meeting_hud@)));
    lemma_member(
        m,
        m,
        "gameData"@,
        8103109068097,
        signature_json(a.game_data@),
        signature_json(a.game_data@),
    );
    let m = m.push(("gameData"@, signature_json(a.game_data@)));
    lemma_member(
        m,
        m,
        "shipStatus"@,
        10115105116115,
        signature_json(a.ship_status@),
        signature_json(a.ship_status@),
    );
    let m = m.push(("shipStatus"@, signature_json(a.ship_status@)));
    lemma_member(
        m,
        m,
        "miniGame"@,
        8109110071101,
        signature_json(a.mini_game@),
        signature_json(a.mini_game@),
    );
    let m = m.push(("miniGame"@, signature_json(a.mini_game@)));
    lemma_member(
        m,
        m,
        "palette"@,
        7112108101101,
        signature_json(a.palette@),
        signature_json(a.palette@),
    );
    let m = m.push(("palette"@, signature_json(a.palette@)));
    lemma_member(
        m,
        m,
        "playerControl"@,
        13112097067108,
        signature_json(a.player_control@),
        signature_json(a.player_control@),
    );
    let m = m.push(("playerControl"@, signature_json(a.player_control@)));
    lemma_member(
        m,
        m,
        "showModStamp"@,
        12115111100112,
        signature_json(a.show_mod_stamp@),
        signature_json(a.show_mod_stamp@),
    );
    let m = m.push(("showModStamp"@, signature_json(a.show_mod_stamp@)));
    lemma_member(
        m,
        m,
        "connectFunc"@,
        11099110099099,
        signature_json(a.connect_func@),
        signature_json(a.connect_func@),
    );
    let m = m.push(("connectFunc"@, signature_json(a.connect_func@)));
    lemma_member(
        m,
        m,
        "fixedUpdateFunc"@,
        15102120100099,
        signature_json(a.fixed_update_func@),
        signature_json(a.fixed_update_func@),
    );
    let m = m.push(("fixedUpdateFunc"@, signature_json(a.fixed_update_func@)));
    lemma_member(
        m,
        m,
        "pingMessageString"@,
        17112110097103,
        signature_json(a.ping_message_string@),
        signature_json(a.ping_message_string@),
    );
    let m = m.push(("pingMessageString"@, signature_json(a.ping_message_string@)));
    lemma_member(
        m,
        m,
        "modLateUpdate"@,
        13109100101101,
        signature_json(a.mod_late_update@),
        signature_json(a.mod_late_update@),
    );
    let m = m.push(("modLateUpdate"@, signature_json(a.mod_late_update@)));
    lemma_member(
        m,
        m,
        "serverManager"@,
        13115114077114,
        signature_json(a.server_manager@),
        signature_json(a.server_manager@),
    );
    let m = m.push(("serverManager"@, signature_json(a.server_manager@)));
    lemma_member(
        m,
        m,
        "gameOptionsManager"@,
        18103109110114,
        signature_json(a.game_options_manager@),
        signature_json(a.game_options_manager@),
    );
    let m = m.push(("gameOptionsManager"@, signature_json(a.game_options_manager@)));
}

/// Every field of the signatures is written under its own key.
#[verifier::rlimit(40)]
pub proof fn signatures_are_written_under_their_keys(a: Signatures)
    ensures
        a.json() is Object,
        a.json()->Object_0.len() == 14,
        under(a.json(), "innerNetClient"@) == Some(signature_json(a.inner_net_client@)),
        under(a.json(), "meetingHud"@) == Some(signature_json(a.meeting_hud@)),
        under(a.json(), "gameData"@) == Some(signature_json(a.game_data@)),
        under(a.json(), "shipStatus"@) == Some(signature_json(a.ship_status@)),
        under(a.json(), "miniGame"@) == Some(signature_json(a.mini_game@)),
        under(a.json(), "palette"@) == Some(signature_json(a.palette@)),
        under(a.json(), "playerControl"@) == Some(signature_json(a.player_control@)),
        under(a.json(), "showModStamp"@) == Some(signature_json(a.show_mod_stamp@)),
        under(a.json(), "connectFunc"@) == Some(signature_json(a.connect_func@)),
        under(a.json(), "fixedUpdateFunc"@) == Some(signature_json(a.fixed_update_func@)),
        under(a.json(), "pingMessageString"@) == Some(signature_json(a.ping_message_string@)),
        under(a.json(), "modLateUpdate"@) == Some(signature_json(a.mod_late_update@)),
        under(a.json(), "serverManager"@) == Some(signature_json(a.server_manager@)),
        under(a.json(), "gameOptionsManager"@) == Some(signature_json(a.game_options_manager@)),
{
    lemma_signatures_keys(a);
    let m = a.json()->Object_0;
    assert(m[0].0 == "innerNetClient"@);
    lemma_under(m, 0);
    assert(m[1].0 == "meetingHud"@);
    lemma_under(m, 1);
    assert(m[2].0 == "gameData"@);
    lemma_under(m, 2);
    assert(m[3].0 == "shipStatus"@);
    lemma_under(m, 3);
    assert(m[4].0 == "miniGame"@);
    lemma_under(m, 4);
    assert(m[5].0 == "palette"@);
    lemma_under(m, 5);
    assert(m[6].0 == "playerControl"@);
    lemma_under(m, 6);
    assert(m[7].0 == "showModStamp"@);
    lemma_under(m, 7);
    assert(m[8].0 == "connectFunc"@);
    lemma_under(m, 8);
    assert(m[9].0 == "fixedUpdateFunc"@);
    lemma_under(m, 9);
    assert(m[10].0 == "pingMessageString"@);
    lemma_under(m, 10);
    assert(m[11].0 == "modLateUpdate"@);
    lemma_under(m, 11);
    assert(m[12].0 == "serverManager"@);
    lemma_under(m, 12);
    assert(m[13].0 == "gameOptionsManager"@);
    lemma_under(m, 13);
}

#[verifier::rlimit(40)]
proof fn lemma_player_keys(a: Player)
    ensures
        aligned(a.json()->Object_0, a.json()->Object_0),
{
    lemma_keys_2();
    lemma_keys_4();
    lemma_keys_5();
    let m = no_members();
    lemma_start();
    lemma_member(
        m,
        m,
        "struct"@,
        6115114117116,
        layout_json(a.struct_layout@),
        layout_json(a.struct_layout@),
    );
    let m = m.push(("struct"@, layout_json(a.struct_layout@)));
    lemma_member(
        m,
        m,
        "isDummy"@,
        7105068117121,
        numbers_json(a.is_dummy@),
        numbers_json(a.is_dummy@),
    );
    let m = m.push(("isDummy"@, numbers_json(a.is_dummy@)));
    lemma_member(
        m,
        m,
        "isLocal"@,
        7105076111108,
        numbers_json(a.is_local@),
        numbers_json(a.is_local@),
    );
    let m = m.push(("isLocal"@, numbers_json(a.is_local@)));
    lemma_member(
        m,
        m,
        "localX"@,
        6108099097088,
        numbers_json(a.local_x@),
        numbers_json(a.local_x@),
    );
    let m = m.push(("localX"@, numbers_json(a.local_x@)));
    lemma_member(
        m,
        m,
        "localY"@,
        6108099097089,
        numbers_json(a.local_y@),
        numbers_json(a.local_y@),
    );
    let m = m.push(("localY"@, numbers_json(a.local_y@)));
    lemma_member(
        m,
        m,
        "remoteX"@,
        7114109111088,
        numbers_json(a.remote_x@),
        numbers_json(a.remote_x@),
    );
    let m = m.push(("remoteX"@, numbers_json(a.remote_x@)));
    lemma_member(
        m,
        m,
        "remoteY"@,
        7114109111089,
        numbers_json(a.remote_y@),
        numbers_json(a.remote_y@),
    );
    let m = m.push(("remoteY"@, numbers_json(a.remote_y@)));
    lemma_member(
        m,
        m,
        "bufferLength"@,
        12098102076104,
        JsonView::Integer(a.buffer_length),
        JsonView::Integer(a.buffer_length),
    );
    let m = m.push(("bufferLength"@, JsonView::Integer(a.buffer_length)));
    lemma_member(
        m,
        m,
        "offsets"@,
        7111102115115,
        numbers_json(a.offsets@),
        numbers_json(a.offsets@),
    );
    let m = m.push(("offsets"@, numbers_json(a.offsets@)));
    lemma_member(
        m,
        m,
        "inVent"@,
        6105086101116,
        numbers_json(a.in_vent@),
        numbers_json(a.in_vent@),
    );
    let m = m.push(("inVent"@, numbers_json(a.in_vent@)));
    lemma_member(
        m,
        m,
        "clientId"@,
        8099105110100,
        numbers_json(a.client_id@),
        numbers_json(a.client_id@),
    );
    let m = m.push(("clientId"@, numbers_json(a.client_id@)));
    lemma_member(
        m,
        m,
        "currentOutfit"@,
        13099114116116,
        numbers_json(a.current_outfit@),
        numbers_json(a.current_outfit@),
    );
    let m = m.push(("currentOutfit"@, numbers_json(a.current_outfit@)));
    lemma_member(
        m,
        m,
        "roleTeam"@,
        8114108084109,
        numbers_json(a.role_team@),
        numbers_json(a.role_team@),
    );
    let m = m.push(("roleTeam"@, numbers_json(a.role_team@)));
    lemma_member(
        m,
        m,
        "nameText"@,
        8110109084116,
        numbers_json(a.name_text@),
        numbers_json(a.name_text@),
    );
    let m = m.push(("nameText"@, numbers_json(a.name_text@)));
    lemma_member(m, m, "outfit"@, 6111116102116, a.outfit.json(), a.outfit.json());
    let m = m.push(("outfit"@, a.outfit.json()));
}

/// Every field of a player is written under its own key.
#[verifier::rlimit(40)]
pub proof fn player_are_written_under_their_keys(a: Player)
    ensures
        a.json() is Object,
        a.json()->Object_0.len() == 15,
        under(a.json(), "struct"@) == Some(layout_json(a.struct_layout@)),
        under(a.json(), "isDummy"@) == Some(numbers_json(a.is_dummy@)),
        under(a.json(), "isLocal"@) == Some(numbers_json(a.is_local@)),
        under(a.json(), "localX"@) == Some(numbers_json(a.local_x@)),
        under(a.json(), "localY"@) == Some(numbers_json(a.local_y@)),
        under(a.json(), "remoteX"@) == Some(numbers_json(a.remote_x@)),
        under(a.json(), "remoteY"@) == Some(numbers_json(a.remote_y@)),
        under(a.json(), "bufferLength"@) == Some(JsonView::Integer(a.buffer_length)),
        under(a.json(), "offsets"@) == Some(numbers_json(a.offsets@)),
        under(a.json(), "inVent"@) == Some(numbers_json(a.in_vent@)),
        under(a.json(), "clientId"@) == Some(numbers_json(a.client_id@)),
        under(a.json(), "currentOutfit"@) == Some(numbers_json(a.current_outfit@)),
        under(a.json(), "roleTeam"@) == Some(numbers_json(a.role_team@)),
        under(a.json(), "nameText"@) == Some(numbers_json(a.name_text@)),
        under(a.json(), "outfit"@) == Some(a.outfit.json()),
{
    lemma_player_keys(a);
    let m = a.json()->Object_0;
    assert(m[0].0 == "struct"@);
    lemma_under(m, 0);
    assert(m[1].0 == "isDummy"@);
    lemma_under(m, 1);
    assert(m[2].0 == "isLocal"@);
    lemma_under(m, 2);
    assert(m[3].0 == "localX"@);
    lemma_under(m, 3);
    assert(m[4].0 == "localY"@);
    lemma_under(m, 4);
    assert(m[5].0 == "remoteX"@);
    lemma_under(m, 5);
    assert(m[6].0 == "remoteY"@);
    lemma_under(m, 6);
    assert(m[7].0 == "bufferLength"@);
    lemma_under(m, 7);
    assert(m[8].0 == "offsets"@);
    lemma_under(m, 8);
    assert(m[9].0 == "inVent"@);
    lemma_under(m, 9);
    assert(m[10].0 == "clientId"@);
    lemma_under(m, 10);
    assert(m[11].0 == "currentOutfit"@);
    lemma_under(m, 11);
    assert(m[12].0 == "roleTeam"@);
    lemma_under(m, 12);
    assert(m[13].0 == "nameText"@);
    lemma_under(m, 13);
    assert(m[14].0 == "outfit"@);
    lemma_under(m, 14);
}

#[verifier::rlimit(40)]
proof fn lemma_offsets_keys(a: Offsets)
    ensures
        aligned(a.json()->Object_0, a.json()->Object_0),
{
    lemma_keys_2();
    lemma_keys_3();
    lemma_keys_5();
    lemma_keys_6();
    lemma_keys_7();
    lemma_keys_8();
    lemma_keys_9();
    let m = no_members();
    lemma_start();
    lemma_member(
        m,
        m,
        "meetingHud"@,
        10109101110100,
        numbers_json(a.meeting_hud@),
        numbers_json(a.meeting_hud@),
    );
    let m = m.push(("meetingHud"@, numbers_json(a.meeting_hud@)));
    lemma_member(
        m,
        m,
        "objectCachePtr"@,
        14111106097114,
        numbers_json(a.object_cache_ptr@),
        numbers_json(a.object_cache_ptr@),
    );
    let m = m.push(("objectCachePtr"@, numbers_json(a.object_cache_ptr@)));
    lemma_member(
        m,
        m,
        "meetingHudState"@,
        15109101072101,
        numbers_json(a.meeting_hud_state@),
        numbers_json(a.meeting_hud_state@),
    );
    let m = m.push(("meetingHudState"@, numbers_json(a.meeting_hud_state@)));
    lemma_member(
        m,
        m,
        "allPlayersPtr"@,
        13097108121114,
        numbers_json(a.all_players_ptr@),
        numbers_json(a.all_players_ptr@),
    );
    let m = m.push(("allPlayersPtr"@, numbers_json(a.all_players_ptr@)));
    lemma_member(
        m,
        m,
        "allPlayers"@,
        10097108097115,
        numbers_json(a.all_players@),
        numbers_json(a.all_players@),
    );
    let m = m.push(("allPlayers"@, numbers_json(a.all_players@)));
    lemma_member(
        m,
        m,
        "playerCount"@,
        11112097114116,
        numbers_json(a.player_count@),
        numbers_json(a.player_count@),
    );
    let m = m.push(("playerCount"@, numbers_json(a.player_count@)));
    lemma_member(
        m,
        m,
        "playerAddrPtr"@,
        13112097065114,
        JsonView::Integer(a.player_addr_ptr),
        JsonView::Integer(a.player_addr_ptr),
    );
    let m = m.push(("playerAddrPtr"@, JsonView::Integer(a.player_addr_ptr)));
    lemma_member(
        m,
        m,
        "shipStatus"@,
        10115105116115,
        numbers_json(a.ship_status@),
        numbers_json(a.ship_status@),
    );
    let m = m.push(("shipStatus"@, numbers_json(a.ship_status@)));
    lemma_member(
        m,
        m,
        "shipStatus_systems"@,
        18115105115115,
        numbers_json(a.ship_status_systems@),
        numbers_json(a.ship_status_systems@),
    );
    let m = m.push(("shipStatus_systems"@, numbers_json(a.ship_status_systems@)));
    lemma_member(
        m,
        m,
        "shipStatus_map"@,
        14115105116112,
        numbers_json(a.ship_status_map@),
        numbers_json(a.ship_status_map@),
    );
    let m = m.push(("shipStatus_map"@, numbers_json(a.ship_status_map@)));
    lemma_member(
        m,
        m,
        "shipstatus_allDoors"@,
        19115105115115,
        numbers_json(a.shipstatus_all_doors@),
        numbers_json(a.shipstatus_all_doors@),
    );
    let m = m.push(("shipstatus_allDoors"@, numbers_json(a.shipstatus_all_doors@)));
    lemma_member(
        m,
        m,
        "door_doorId"@,
        11100111100100,
        JsonView::Integer(a.door_door_id),
        JsonView::Integer(a.door_door_id),
    );
    let m = m.push(("door_doorId"@, JsonView::Integer(a.door_door_id)));
    lemma_member(
        m,
        m,
        "door_isOpen"@,
        11100111105110,
        JsonView::Integer(a.door_is_open),
        JsonView::Integer(a.door_is_open),
    );
    let m = m.push(("door_isOpen"@, JsonView::Integer(a.door_is_open)));
    lemma_member(
        m,
        m,
        "deconDoorUpperOpen"@,
        18100099085110,
        numbers_json(a.decon_door_upper_open@),
        numbers_json(a.decon_door_upper_open@),
    );
    let m = m.push(("deconDoorUpperOpen"@, numbers_json(a.decon_door_upper_open@)));
    lemma_member(
        m,
        m,
        "deconDoorLowerOpen"@,
        18100099076110,
        numbers_json(a.decon_door_lower_open@),
        numbers_json(a.decon_door_lower_open@),
    );
    let m = m.push(("deconDoorLowerOpen"@, numbers_json(a.decon_door_lower_open@)));
    lemma_member(
        m,
        m,
        "hqHudSystemType_CompletedConsoles"@,
        33104072067115,
        numbers_json(a.hq_hud_completed_consoles@),
        numbers_json(a.hq_hud_completed_consoles@),
    );
    let m = m.push(
        ("hqHudSystemType_CompletedConsoles"@, numbers_json(a.hq_hud_completed_consoles@)),
    );
    lemma_member(
        m,
        m,
        "HudOverrideSystemType_isActive"@,
        30072100101101,
        numbers_json(a.hud_override_is_active@),
        numbers_json(a.hud_override_is_active@),
    );
    let m = m.push(("HudOverrideSystemType_isActive"@, numbers_json(a.hud_override_is_active@)));
    lemma_member(
        m,
        m,
        "miniGame"@,
        8109110071101,
        numbers_json(a.mini_game@),
        numbers_json(a.mini_game@),
    );
    let m = m.push(("miniGame"@, numbers_json(a.mini_game@)));
    lemma_member(
        m,
        m,
        "planetSurveillanceMinigame_currentCamera"@,
        40112097110097,
        numbers_json(a.planet_surveillance_current_camera@),
        numbers_json(a.planet_surveillance_current_camera@),
    );
    let m = m.push(
        ("planetSurveillanceMinigame_currentCamera"@, numbers_json(a.planet_surveillance_current_camera@)),
    );
    lemma_member(
        m,
        m,
        "planetSurveillanceMinigame_camarasCount"@,
        39112097105116,
        numbers_json(a.planet_surveillance_camaras_count@),
        numbers_json(a.planet_surveillance_camaras_count@),
    );
    let m = m.push(
        ("planetSurveillanceMinigame_camarasCount"@, numbers_json(a.planet_surveillance_camaras_count@)),
    );
    lemma_member(
        m,
        m,
        "surveillanceMinigame_FilteredRoomsCount"@,
        39115114101116,
        numbers_json(a.surveillance_filtered_rooms_count@),
        numbers_json(a.surveillance_filtered_rooms_count@),
    );
    let m = m.push(
        ("surveillanceMinigame_FilteredRoomsCount"@, numbers_json(a.surveillance_filtered_rooms_count@)),
    );
    lemma_member(
        m,
        m,
        "lightRadius"@,
        11108103082115,
        numbers_json(a.light_radius@),
        numbers_json(a.light_radius@),
    );
    let m = m.push(("lightRadius"@, numbers_json(a.light_radius@)));
    lemma_member(
        m,
        m,
        "palette"@,
        7112108101101,
        numbers_json(a.palette@),
        numbers_json(a.palette@),
    );
    let m = m.push(("palette"@, numbers_json(a.palette@)));
    lemma_member(
        m,
        m,
        "palette_playercolor"@,
        19112108108114,
        numbers_json(a.palette_playercolor@),
        numbers_json(a.palette_playercolor@),
    );
    let m = m.push(("palette_playercolor"@, numbers_json(a.palette_playercolor@)));
    lemma_member(
        m,
        m,
        "palette_shadowColor"@,
        19112108104114,
        numbers_json(a.palette_shadow_color@),
        numbers_json(a.palette_shadow_color@),
    );
    let m = m.push(("palette_shadowColor"@, numbers_json(a.palette_shadow_color@)));
    lemma_member(
        m,
        m,
        "playerControl_GameOptions"@,
        25112097108115,
        numbers_json(a.player_control_game_options@),
        numbers_json(a.player_control_game_options@),
    );
    let m = m.push(("playerControl_GameOptions"@, numbers_json(a.player_control_game_options@)));
    lemma_member(
        m,
        m,
        "gameoptionsData"@,
        15103109105097,
        numbers_json(a.gameoptions_data@),
        numbers_json(a.gameoptions_data@),
    );
    let m = m.push(("gameoptionsData"@, numbers_json(a.gameoptions_data@)));
    lemma_member(
        m,
        m,
        "gameOptions_MapId"@,
        17103109111100,
        numbers_json(a.game_options_map_id@),
        numbers_json(a.game_options_map_id@),
    );
    let m = m.push(("gameOptions_MapId"@, numbers_json(a.game_options_map_id@)));
    lemma_member(
        m,
        m,
        "gameOptions_MaxPLayers"@,
        22103109095115,
        numbers_json(a.game_options_max_players@),
        numbers_json(a.game_options_max_players@),
    );
    let m = m.push(("gameOptions_MaxPLayers"@, numbers_json(a.game_options_max_players@)));
    lemma_member(
        m,
        m,
        "serverManager_currentServer"@,
        27115114095114,
        numbers_json(a.server_manager_current_server@),
        numbers_json(a.server_manager_current_server@),
    );
    let m = m.push(
        ("serverManager_currentServer"@, numbers_json(a.server_manager_current_server@)),
    );
    lemma_member(
        m,
        m,
        "connectFunc"@,
        11099110099099,
        JsonView::Integer(a.connect_func),
        JsonView::Integer(a.connect_func),
    );
    let m = m.push(("connectFunc"@, JsonView::Integer(a.connect_func)));
    lemma_member(
        m,
        m,
        "showModStampFunc"@,
        16115111116099,
        JsonView::Integer(a.show_mod_stamp_func),
        JsonView::Integer(a.show_mod_stamp_func),
    );
    let m = m.push(("showModStampFunc"@, JsonView::Integer(a.show_mod_stamp_func)));
    lemma_member(
        m,
        m,
        "modLateUpdateFunc"@,
        17109100112099,
        JsonView::Integer(a.mod_late_update_func),
        JsonView::Integer(a.mod_late_update_func),
    );
    let m = m.push(("modLateUpdateFunc"@, JsonView::Integer(a.mod_late_update_func)));
    lemma_member(
        m,
        m,
        "fixedUpdateFunc"@,
        15102120100099,
        JsonView::Integer(a.fixed_update_func),
        JsonView::Integer(a.fixed_update_func),
    );
    let m = m.push(("fixedUpdateFunc"@, JsonView::Integer(a.fixed_update_func)));
    lemma_member(
        m,
        m,
        "pingMessageString"@,
        17112110097103,
        JsonView::Integer(a.ping_message_string),
        JsonView::Integer(a.ping_message_string),
    );
    let m = m.push(("pingMessageString"@, JsonView::Integer(a.ping_message_string)));
    lemma_member(
        m,
        m,
        "innerNetClient"@,
        14105110116116,
        a.inner_net_client.json(),
        a.inner_net_client.json(),
    );
    let m = m.push(("innerNetClient"@, a.inner_net_client.json()));
    lemma_member(m, m, "player"@, 6112097121114, a.player.json(), a.player.json());
    let m = m.push(("player"@, a.player.json()));
    lemma_member(m, m, "signatures"@, 10115103116115, a.signatures.json(), a.signatures.json());
    let m = m.push(("signatures"@, a.signatures.json()));
    lemma_member(
        m,
        m,
        "oldMeetingHud"@,
        13111100116100,
        JsonView::Bool(a.old_meeting_hud),
        JsonView::Bool(a.old_meeting_hud),
    );
    let m = m.push(("oldMeetingHud"@, JsonView::Bool(a.old_meeting_hud)));
    lemma_member(
        m,
        m,
        "disableWriting"@,
        14100115087103,
        JsonView::Bool(a.disable_writing),
        JsonView::Bool(a.disable_writing),
    );
    let m = m.push(("disableWriting"@, JsonView::Bool(a.disable_writing)));
    lemma_member(
        m,
        m,
        "newGameOptions"@,
        14110119079115,
        JsonView::Bool(a.new_game_options),
        JsonView::Bool(a.new_game_options),
    );
    let m = m.push(("newGameOptions"@, JsonView::Bool(a.new_game_options)));
}

/// Every field of a file is written under its own key.
#[verifier::rlimit(40)]
pub proof fn offsets_are_written_under_their_keys(a: Offsets)
    ensures
        a.json() is Object,
        a.json()->Object_0.len() == 41,
        under(a.json(), "meetingHud"@) == Some(numbers_json(a.meeting_hud@)),
        under(a.json(), "objectCachePtr"@) == Some(numbers_json(a.object_cache_ptr@)),
        under(a.json(), "meetingHudState"@) == Some(numbers_json(a.meeting_hud_state@)),
        under(a.json(), "allPlayersPtr"@) == Some(numbers_json(a.all_players_ptr@)),
        under(a.json(), "allPlayers"@) == Some(numbers_json(a.all_players@)),
        under(a.json(), "playerCount"@) == Some(numbers_json(a.player_count@)),
        under(a.json(), "playerAddrPtr"@) == Some(JsonView::Integer(a.player_addr_ptr)),
        under(a.json(), "shipStatus"@) == Some(numbers_json(a.ship_status@)),
        under(a.json(), "shipStatus_systems"@) == Some(numbers_json(a.ship_status_systems@)),
        under(a.json(), "shipStatus_map"@) == Some(numbers_json(a.ship_status_map@)),
        under(a.json(), "shipstatus_allDoors"@) == Some(numbers_json(a.shipstatus_all_doors@)),
        under(a.json(), "door_doorId"@) == Some(JsonView::Integer(a.door_door_id)),
        under(a.json(), "door_isOpen"@) == Some(JsonView::Integer(a.door_is_open)),
        under(a.json(), "deconDoorUpperOpen"@) == Some(numbers_json(a.decon_door_upper_open@)),
        under(a.json(), "deconDoorLowerOpen"@) == Some(numbers_json(a.decon_door_lower_open@)),
        under(a.json(), "hqHudSystemType_CompletedConsoles"@) == Some(
            numbers_json(a.hq_hud_completed_consoles@),
        ),
        under(a.json(), "HudOverrideSystemType_isActive"@) == Some(
            numbers_json(a.hud_override_is_active@),
        ),
        under(a.json(), "miniGame"@) == Some(numbers_json(a.mini_game@)),
        under(a.json(), "planetSurveillanceMinigame_currentCamera"@) == Some(
            numbers_json(a.planet_surveillance_current_camera@),
        ),
        under(a.json(), "planetSurveillanceMinigame_camarasCount"@) == Some(
            numbers_json(a.planet_surveillance_camaras_count@),
        ),
        under(a.json(), "surveillanceMinigame_FilteredRoomsCount"@) == Some(
            numbers_json(a.surveillance_filtered_rooms_count@),
        ),
        under(a.json(), "lightRadius"@) == Some(numbers_json(a.light_radius@)),
        under(a.json(), "palette"@) == Some(numbers_json(a.palette@)),
        under(a.json(), "palette_playercolor"@) == Some(numbers_json(a.palette_playercolor@)),
        under(a.json(), "palette_shadowColor"@) == Some(numbers_json(a.palette_shadow_color@)),
        under(a.json(), "playerControl_GameOptions"@) == Some(
            numbers_json(a.player_control_game_options@),
        ),
        under(a.json(), "gameoptionsData"@) == Some(numbers_json(a.gameoptions_data@)),
        under(a.json(), "gameOptions_MapId"@) == Some(numbers_json(a.game_options_map_id@)),
        under(a.json(), "gameOptions_MaxPLayers"@) == Some(
            numbers_json(a.game_options_max_players@),
        ),
        under(a.json(), "serverManager_currentServer"@) == Some(
            numbers_json(a.server_manager_current_server@),
        ),
        under(a.json(), "connectFunc"@) == Some(JsonView::Integer(a.connect_func)),
        under(a.json(), "showModStampFunc"@) == Some(JsonView::Integer(a.show_mod_stamp_func)),
        under(a.json(), "modLateUpdateFunc"@) == Some(JsonView::Integer(a.mod_late_update_func)),
        under(a.json(), "fixedUpdateFunc"@) == Some(JsonView::Integer(a.fixed_update_func)),
        under(a.json(), "pingMessageString"@) == Some(JsonView::Integer(a.ping_message_string)),
        under(a.json(), "innerNetClient"@) == Some(a.inner_net_client.json()),
        under(a.json(), "player"@) == Some(a.player.json()),
        under(a.json(), "signatures"@) == Some(a.signatures.json()),
        under(a.json(), "oldMeetingHud"@) == Some(JsonView::Bool(a.old_meeting_hud)),
        under(a.json(), "disableWriting"@) == Some(JsonView::Bool(a.disable_writing)),
        under(a.json(), "newGameOptions"@) == Some(JsonView::Bool(a.new_game_options)),
{
    lemma_offsets_keys(a);
    let m = a.json()->Object_0;
    assert(m[0].0 == "meetingHud"@);
    lemma_under(m, 0);
    assert(m[1].0 == "objectCachePtr"@);
    lemma_under(m, 1);
    assert(m[2].0 == "meetingHudState"@);
    lemma_under(m, 2);
    assert(m[3].0 == "allPlayersPtr"@);
    lemma_under(m, 3);
    assert(m[4].0 == "allPlayers"@);
    lemma_under(m, 4);
    assert(m[5].0 == "playerCount"@);
    lemma_under(m, 5);
    assert(m[6].0 == "playerAddrPtr"@);
    lemma_under(m, 6);
    assert(m[7].0 == "shipStatus"@);
    lemma_under(m, 7);
    assert(m[8].0 == "shipStatus_systems"@);
    lemma_under(m, 8);
    assert(m[9].0 == "shipStatus_map"@);
    lemma_under(m, 9);
    assert(m[10].0 == "shipstatus_allDoors"@);
    lemma_under(m, 10);
    assert(m[11].0 == "door_doorId"@);
    lemma_under(m, 11);
    assert(m[12].0 == "door_isOpen"@);
    lemma_under(m, 12);
    assert(m[13].0 == "deconDoorUpperOpen"@);
    lemma_under(m, 13);
    assert(m[14].0 == "deconDoorLowerOpen"@);
    lemma_under(m, 14);
    assert(m[15].0 == "hqHudSystemType_CompletedConsoles"@);
    lemma_under(m, 15);
    assert(m[16].0 == "HudOverrideSystemType_isActive"@);
    lemma_under(m, 16);
    assert(m[17].0 == "miniGame"@);
    lemma_under(m, 17);
    assert(m[18].0 == "planetSurveillanceMinigame_currentCamera"@);
    lemma_under(m, 18);
    assert(m[19].0 == "planetSurveillanceMinigame_camarasCount"@);
    lemma_under(m, 19);
    assert(m[20].0 == "surveillanceMinigame_FilteredRoomsCount"@);
    lemma_under(m, 20);
    assert(m[21].0 == "lightRadius"@);
    lemma_under(m, 21);
    assert(m[22].0 == "palette"@);
    lemma_under(m, 22);
    assert(m[23].0 == "palette_playercolor"@);
    lemma_under(m, 23);
    assert(m[24].0 == "palette_shadowColor"@);
    lemma_under(m, 24);
    assert(m[25].0 == "playerControl_GameOptions"@);
    lemma_under(m, 25);
    assert(m[26].0 == "gameoptionsData"@);
    lemma_under(m, 26);
    assert(m[27].0 == "gameOptions_MapId"@);
    lemma_under(m, 27);
    assert(m[28].0 == "gameOptions_MaxPLayers"@);
    lemma_under(m, 28);
    assert(m[29].0 == "serverManager_currentServer"@);
    lemma_under(m, 29);
    assert(m[30].0 == "connectFunc"@);
    lemma_under(m, 30);
    assert(m[31].0 == "showModStampFunc"@);
    lemma_under(m, 31);
    assert(m[32].0 == "modLateUpdateFunc"@);
    lemma_under(m, 32);
    assert(m[33].0 == "fixedUpdateFunc"@);
    lemma_under(m, 33);
    assert(m[34].0 == "pingMessageString"@);
    lemma_under(m, 34);
    assert(m[35].0 == "innerNetClient"@);
    lemma_under(m, 35);
    assert(m[36].0 == "player"@);
    lemma_under(m, 36);
    assert(m[37].0 == "signatures"@);
    lemma_under(m, 37);
    assert(m[38].0 == "oldMeetingHud"@);
    lemma_under(m, 38);
    assert(m[39].0 == "disableWriting"@);
    lemma_under(m, 39);
    assert(m[40].0 == "newGameOptions"@);
    lemma_under(m, 40);
}

/// Of two offsets files nothing is reported if and only if they are equal, field
/// by field; no path is reported twice; and swapping the two keeps the paths and
/// their order.
pub proof fn offsets_files_are_compared_field_by_field(a: Offsets, b: Offsets)
    ensures
        differences(a.json(), b.json(), Seq::empty()).len() == 0 <==> a.says_same(b),
        paths(differences(a.json(), b.json(), Seq::empty())).no_duplicates(),
        paths(differences(a.json(), b.json(), Seq::empty())) == paths(
            differences(b.json(), a.json(), Seq::empty()),
        ),
{
    lemma_offsets(a, b);
    lemma_offsets(b, a);
    only_equal_values_do_not_differ(a.json(), b.json(), Seq::empty());
    no_path_is_reported_twice(a.json(), b.json(), Seq::empty());
    swapping_keeps_the_paths(a.json(), b.json(), Seq::empty());
}

} // verus!
