//! The world index: a pure flattening of the owned town tree into
//! identifier-keyed lookup tables, used for export.  It never mutates the
//! tree; the tree stays the source of truth.
use vstd::prelude::*;

use crate::entities::{Building, BuildingM, Container, Npc, NpcM, Room, RoomM, Town, TownM};
use std::collections::HashMap;

verus! {

broadcast use vstd::std_specs::hash::group_hash_axioms;

/// All buildings of all towns, in tree order.
pub open spec fn seq_buildings(ts: Seq<TownM>) -> Seq<BuildingM>
    decreases ts.len(),
{
    if ts.len() == 0 {
        Seq::empty()
    } else {
        seq_buildings(ts.drop_last()) + ts.last().buildings
    }
}

/// All rooms of a building sequence, in tree order.
pub open spec fn seq_rooms(bs: Seq<BuildingM>) -> Seq<RoomM>
    decreases bs.len(),
{
    if bs.len() == 0 {
        Seq::empty()
    } else {
        seq_rooms(bs.drop_last()) + bs.last().rooms
    }
}

/// All inhabitants of a room sequence, in tree order.
pub open spec fn seq_npcs(rs: Seq<RoomM>) -> Seq<NpcM>
    decreases rs.len(),
{
    if rs.len() == 0 {
        Seq::empty()
    } else {
        seq_npcs(rs.drop_last()) + rs.last().npcs
    }
}

/// All containers of a room sequence, in tree order.
pub open spec fn seq_containers(rs: Seq<RoomM>) -> Seq<Container>
    decreases rs.len(),
{
    if rs.len() == 0 {
        Seq::empty()
    } else {
        seq_containers(rs.drop_last()) + rs.last().containers
    }
}

/// A sequence of towns keyed by identifier, later entries overriding.
pub open spec fn map_towns(ts: Seq<TownM>) -> Map<u32, TownM>
    decreases ts.len(),
{
    if ts.len() == 0 {
        Map::empty()
    } else {
        map_towns(ts.drop_last()).insert(ts.last().id, ts.last())
    }
}

/// A sequence of buildings keyed by identifier.
pub open spec fn map_buildings(bs: Seq<BuildingM>) -> Map<u32, BuildingM>
    decreases bs.len(),
{
    if bs.len() == 0 {
        Map::empty()
    } else {
        map_buildings(bs.drop_last()).insert(bs.last().id, bs.last())
    }
}

/// A sequence of rooms keyed by identifier.
pub open spec fn map_rooms(rs: Seq<RoomM>) -> Map<u32, RoomM>
    decreases rs.len(),
{
    if rs.len() == 0 {
        Map::empty()
    } else {
        map_rooms(rs.drop_last()).insert(rs.last().id, rs.last())
    }
}

/// A sequence of inhabitants keyed by identifier.
pub open spec fn map_npcs(ns: Seq<NpcM>) -> Map<u32, NpcM>
    decreases ns.len(),
{
    if ns.len() == 0 {
        Map::empty()
    } else {
        map_npcs(ns.drop_last()).insert(ns.last().id, ns.last())
    }
}

/// A sequence of containers keyed by identifier.
pub open spec fn map_containers(cs: Seq<Container>) -> Map<u32, Container>
    decreases cs.len(),
{
    if cs.len() == 0 {
        Map::empty()
    } else {
        map_containers(cs.drop_last()).insert(cs.last().id, cs.last())
    }
}

/// The denormalized world: one identifier-keyed table per entity kind.
#[derive(Debug, PartialEq)]
pub struct World {
    pub towns: HashMap<u32, Town>,
    pub buildings: HashMap<u32, Building>,
    pub rooms: HashMap<u32, Room>,
    pub npcs: HashMap<u32, Npc>,
    pub containers: HashMap<u32, Container>,
}

/// Model of a `World`.
pub ghost struct WorldM {
    pub towns: Map<u32, TownM>,
    pub buildings: Map<u32, BuildingM>,
    pub rooms: Map<u32, RoomM>,
    pub npcs: Map<u32, NpcM>,
    pub containers: Map<u32, Container>,
}

impl DeepView for World {
    type V = WorldM;

    open spec fn deep_view(&self) -> WorldM {
        WorldM {
            towns: self.towns.deep_view(),
            buildings: self.buildings.deep_view(),
            rooms: self.rooms.deep_view(),
            npcs: self.npcs.deep_view(),
            containers: self.containers.deep_view(),
        }
    }
}

impl View for World {
    type V = WorldM;

    open spec fn view(&self) -> WorldM {
        self.deep_view()
    }
}

/// The index a town tree flattens to.
pub open spec fn spec_build_world(ts: Seq<TownM>) -> WorldM {
    WorldM {
        towns: map_towns(ts),
        buildings: map_buildings(seq_buildings(ts)),
        rooms: map_rooms(seq_rooms(seq_buildings(ts))),
        npcs: map_npcs(seq_npcs(seq_rooms(seq_buildings(ts)))),
        containers: map_containers(seq_containers(seq_rooms(seq_buildings(ts)))),
    }
}

/// The deep view of a hash map with `u32` keys tracks `insert` exactly.
proof fn lemma_map_deep_insert<V: DeepView>(
    m1: HashMap<u32, V>,
    m2: HashMap<u32, V>,
    k: u32,
    v: V,
)
    requires
        m2@ == m1@.insert(k, v),
    ensures
        m2.deep_view() == m1.deep_view().insert(k, v.deep_view()),
{
    let f = |x: u32| x.deep_view();
    assert forall|a: u32, b: u32| #[trigger] f(a) == #[trigger] f(b) implies a == b by {
        assert(f(a) == a);
        assert(f(b) == b);
    }
    assert(vstd::relations::injective(f));
    vstd::std_specs::hash::lemma_hashmap_deepview_properties(m1);
    vstd::std_specs::hash::lemma_hashmap_deepview_properties(m2);
    vstd::std_specs::hash::lemma_hashmap_deepview_dom(m1);
    vstd::std_specs::hash::lemma_hashmap_deepview_dom(m2);
    assert forall|dk: u32| #[trigger] m2.deep_view().dom().contains(dk) implies m1.deep_view()
        .insert(k, v.deep_view()).dom().contains(dk) by {
        assert(m2@.dom().map(|x: u32| x.deep_view()).contains(dk));
        let ok = choose|ok: u32| #[trigger] m2@.dom().contains(ok) && ok.deep_view() == dk;
        assert(ok == dk);
        if dk != k {
            assert(m1@.dom().contains(dk));
            assert(m1@.dom().map(|x: u32| x.deep_view()).contains(dk)) by {
                assert(dk.deep_view() == dk);
            }
        }
    }
    assert forall|dk: u32|
        m1.deep_view().insert(k, v.deep_view()).dom().contains(dk) implies #[trigger] m2.deep_view()
        .dom().contains(dk) by {
        if dk == k {
            assert(m2@.contains_key(k));
        } else {
            assert(m1.deep_view().dom().contains(dk));
            let ok = choose|ok: u32| #[trigger] m1@.dom().contains(ok) && ok.deep_view() == dk;
            assert(ok == dk);
            assert(m2@.contains_key(dk));
        }
    }
    assert forall|dk: u32| #[trigger] m2.deep_view().dom().contains(dk) implies m2.deep_view()[dk]
        == m1.deep_view().insert(k, v.deep_view())[dk] by {
        assert(m2@.contains_key(dk));
        assert(m2.deep_view()[dk] == m2@[dk].deep_view());
        if dk == k {
        } else {
            assert(m1@.contains_key(dk));
            assert(m1.deep_view()[dk] == m1@[dk].deep_view());
        }
    }
    assert(m2.deep_view() =~= m1.deep_view().insert(k, v.deep_view()));
}

/// The deep view of an empty hash map is empty.
proof fn lemma_map_deep_empty<V: DeepView>(m: HashMap<u32, V>)
    requires
        m@ == Map::<u32, V>::empty(),
    ensures
        m.deep_view() == Map::<u32, <V as DeepView>::V>::empty(),
{
    vstd::std_specs::hash::lemma_hashmap_deepview_dom(m);
    assert forall|dk: u32| !(#[trigger] m.deep_view().dom().contains(dk)) by {
        if m.deep_view().dom().contains(dk) {
            assert(m@.dom().map(|x: u32| x.deep_view()).contains(dk));
            let ok = choose|ok: u32| #[trigger] m@.dom().contains(ok) && ok.deep_view() == dk;
        }
    }
    assert(m.deep_view() =~= Map::<u32, <V as DeepView>::V>::empty());
}

/// Flatten the town tree into the per-kind lookup tables.  A pure
/// projection: the tree itself is left untouched.
#[verifier::loop_isolation(false)]
pub fn build_world(towns: &Vec<Town>) -> (w: World)
    ensures
        w.deep_view() == spec_build_world(towns.deep_view()),
{
    let ghost td = towns.deep_view();
    // flatten the tree, level by level
    let mut buildings_flat: Vec<Building> = Vec::new();
    let mut i: usize = 0;
    proof {
        assert(buildings_flat.deep_view() =~= seq_buildings(td.take(0)));
    }
    while i < towns.len()
        invariant
            i <= towns@.len(),
            buildings_flat.deep_view() == seq_buildings(td.take(i as int)),
        decreases towns@.len() - i,
    {
        let mut j: usize = 0;
        while j < towns[i].buildings.len()
            invariant
                i < towns@.len(),
                j <= towns@[i as int].buildings@.len(),
                buildings_flat.deep_view() == seq_buildings(td.take(i as int)) + td[
                    i as int
                ].buildings.take(j as int),
            decreases towns@[i as int].buildings@.len() - j,
        {
            let ghost before = buildings_flat.deep_view();
            buildings_flat.push(towns[i].buildings[j].clone());
            j = j + 1;
            proof {
                assert(buildings_flat.deep_view() =~= before.push(
                    td[i as int].buildings[j - 1],
                ));
                assert(td[i as int].buildings.take(j as int) =~= td[i as int].buildings.take(j - 1)
                    .push(td[i as int].buildings[j - 1]));
                assert(before.push(td[i as int].buildings[j - 1]) =~= seq_buildings(
                    td.take(i as int),
                ) + td[i as int].buildings.take(j as int));
            }
        }
        i = i + 1;
        proof {
            assert(td.take(i as int).drop_last() =~= td.take(i - 1));
            assert(td.take(i as int).last() == td[i - 1]);
            assert(td[i - 1].buildings.take(td[i - 1].buildings.len() as int) =~= td[
                i - 1
            ].buildings);
        }
    }
    proof {
        assert(td.take(td.len() as int) =~= td);
    }
    let ghost bd = buildings_flat.deep_view();
    let mut rooms_flat: Vec<Room> = Vec::new();
    let mut i2: usize = 0;
    proof {
        assert(rooms_flat.deep_view() =~= seq_rooms(bd.take(0)));
    }
    while i2 < buildings_flat.len()
        invariant
            i2 <= buildings_flat@.len(),
            rooms_flat.deep_view() == seq_rooms(bd.take(i2 as int)),
        decreases buildings_flat@.len() - i2,
    {
        let mut j: usize = 0;
        while j < buildings_flat[i2].rooms.len()
            invariant
                i2 < buildings_flat@.len(),
                j <= bd[i2 as int].rooms.len(),
                rooms_flat.deep_view() == seq_rooms(bd.take(i2 as int)) + bd[i2 as int].rooms.take(
                    j as int,
                ),
            decreases bd[i2 as int].rooms.len() - j,
        {
            let ghost before = rooms_flat.deep_view();
            rooms_flat.push(buildings_flat[i2].rooms[j].clone());
            j = j + 1;
            proof {
                assert(rooms_flat.deep_view() =~= before.push(bd[i2 as int].rooms[j - 1]));
                assert(bd[i2 as int].rooms.take(j as int) =~= bd[i2 as int].rooms.take(j - 1).push(
                    bd[i2 as int].rooms[j - 1],
                ));
                assert(before.push(bd[i2 as int].rooms[j - 1]) =~= seq_rooms(bd.take(i2 as int))
                    + bd[i2 as int].rooms.take(j as int));
            }
        }
        i2 = i2 + 1;
        proof {
            assert(bd.take(i2 as int).drop_last() =~= bd.take(i2 - 1));
            assert(bd.take(i2 as int).last() == bd[i2 - 1]);
            assert(bd[i2 - 1].rooms.take(bd[i2 - 1].rooms.len() as int) =~= bd[i2 - 1].rooms);
        }
    }
    proof {
        assert(bd.take(bd.len() as int) =~= bd);
    }
    let ghost rd = rooms_flat.deep_view();
    let mut npcs_flat: Vec<Npc> = Vec::new();
    let mut containers_flat: Vec<Container> = Vec::new();
    let mut i3: usize = 0;
    proof {
        assert(npcs_flat.deep_view() =~= seq_npcs(rd.take(0)));
        assert(containers_flat@ =~= seq_containers(rd.take(0)));
    }
    while i3 < rooms_flat.len()
        invariant
            i3 <= rooms_flat@.len(),
            npcs_flat.deep_view() == seq_npcs(rd.take(i3 as int)),
            containers_flat@ == seq_containers(rd.take(i3 as int)),
        decreases rooms_flat@.len() - i3,
    {
        let mut j: usize = 0;
        while j < rooms_flat[i3].npcs.len()
            invariant
                i3 < rooms_flat@.len(),
                j <= rd[i3 as int].npcs.len(),
                npcs_flat.deep_view() == seq_npcs(rd.take(i3 as int)) + rd[i3 as int].npcs.take(
                    j as int,
                ),
            decreases rd[i3 as int].npcs.len() - j,
        {
            let ghost before = npcs_flat.deep_view();
            npcs_flat.push(rooms_flat[i3].npcs[j].clone());
            j = j + 1;
            proof {
                assert(npcs_flat.deep_view() =~= before.push(rd[i3 as int].npcs[j - 1]));
                assert(rd[i3 as int].npcs.take(j as int) =~= rd[i3 as int].npcs.take(j - 1).push(
                    rd[i3 as int].npcs[j - 1],
                ));
                assert(before.push(rd[i3 as int].npcs[j - 1]) =~= seq_npcs(rd.take(i3 as int)) + rd[
                    i3 as int
                ].npcs.take(j as int));
            }
        }
        let mut j2: usize = 0;
        while j2 < rooms_flat[i3].containers.len()
            invariant
                i3 < rooms_flat@.len(),
                j2 <= rd[i3 as int].containers.len(),
                containers_flat@ == seq_containers(rd.take(i3 as int)) + rd[
                    i3 as int
                ].containers.take(j2 as int),
            decreases rd[i3 as int].containers.len() - j2,
        {
            let ghost before = containers_flat@;
            containers_flat.push(rooms_flat[i3].containers[j2]);
            j2 = j2 + 1;
            proof {
                assert(rd[i3 as int].containers.take(j2 as int) =~= rd[i3 as int].containers.take(
                    j2 - 1,
                ).push(rd[i3 as int].containers[j2 - 1]));
                assert(before.push(rd[i3 as int].containers[j2 - 1]) =~= seq_containers(
                    rd.take(i3 as int),
                ) + rd[i3 as int].containers.take(j2 as int));
            }
        }
        i3 = i3 + 1;
        proof {
            assert(rd.take(i3 as int).drop_last() =~= rd.take(i3 - 1));
            assert(rd.take(i3 as int).last() == rd[i3 - 1]);
            assert(rd[i3 - 1].npcs.take(rd[i3 - 1].npcs.len() as int) =~= rd[i3 - 1].npcs);
            assert(rd[i3 - 1].containers.take(rd[i3 - 1].containers.len() as int) =~= rd[
                i3 - 1
            ].containers);
        }
    }
    proof {
        assert(rd.take(rd.len() as int) =~= rd);
    }
    let ghost nd = npcs_flat.deep_view();
    let ghost cd = containers_flat@;
    // key each flattened level by identifier
    let mut towns_map: HashMap<u32, Town> = HashMap::new();
    let mut k: usize = 0;
    proof {
        lemma_map_deep_empty(towns_map);
        assert(td.take(0) =~= Seq::<TownM>::empty());
    }
    while k < towns.len()
        invariant
            k <= towns@.len(),
            towns_map.deep_view() == map_towns(td.take(k as int)),
        decreases towns@.len() - k,
    {
        let ghost before = towns_map;
        let t = towns[k].clone();
        let key = t.id;
        towns_map.insert(key, t);
        k = k + 1;
        proof {
            lemma_map_deep_insert(before, towns_map, key, towns_map@[key]);
            assert(td.take(k as int).drop_last() =~= td.take(k - 1));
            assert(td.take(k as int).last() == td[k - 1]);
            assert(towns_map@[key].deep_view() == td[k - 1]);
        }
    }
    let mut buildings_map: HashMap<u32, Building> = HashMap::new();
    let mut k2: usize = 0;
    proof {
        lemma_map_deep_empty(buildings_map);
        assert(bd.take(0) =~= Seq::<BuildingM>::empty());
    }
    while k2 < buildings_flat.len()
        invariant
            k2 <= buildings_flat@.len(),
            buildings_map.deep_view() == map_buildings(bd.take(k2 as int)),
        decreases buildings_flat@.len() - k2,
    {
        let ghost before = buildings_map;
        let b = buildings_flat[k2].clone();
        let key = b.id;
        buildings_map.insert(key, b);
        k2 = k2 + 1;
        proof {
            lemma_map_deep_insert(before, buildings_map, key, buildings_map@[key]);
            assert(bd.take(k2 as int).drop_last() =~= bd.take(k2 - 1));
            assert(bd.take(k2 as int).last() == bd[k2 - 1]);
            assert(buildings_map@[key].deep_view() == bd[k2 - 1]);
        }
    }
    let mut rooms_map: HashMap<u32, Room> = HashMap::new();
    let mut k3: usize = 0;
    proof {
        lemma_map_deep_empty(rooms_map);
        assert(rd.take(0) =~= Seq::<RoomM>::empty());
    }
    while k3 < rooms_flat.len()
        invariant
            k3 <= rooms_flat@.len(),
            rooms_map.deep_view() == map_rooms(rd.take(k3 as int)),
        decreases rooms_flat@.len() - k3,
    {
        let ghost before = rooms_map;
        let room = rooms_flat[k3].clone();
        let key = room.id;
        rooms_map.insert(key, room);
        k3 = k3 + 1;
        proof {
            lemma_map_deep_insert(before, rooms_map, key, rooms_map@[key]);
            assert(rd.take(k3 as int).drop_last() =~= rd.take(k3 - 1));
            assert(rd.take(k3 as int).last() == rd[k3 - 1]);
            assert(rooms_map@[key].deep_view() == rd[k3 - 1]);
        }
    }
    let mut npcs_map: HashMap<u32, Npc> = HashMap::new();
    let mut k4: usize = 0;
    proof {
        lemma_map_deep_empty(npcs_map);
        assert(nd.take(0) =~= Seq::<NpcM>::empty());
    }
    while k4 < npcs_flat.len()
        invariant
            k4 <= npcs_flat@.len(),
            npcs_map.deep_view() == map_npcs(nd.take(k4 as int)),
        decreases npcs_flat@.len() - k4,
    {
        let ghost before = npcs_map;
        let n = npcs_flat[k4].clone();
        let key = n.id;
        npcs_map.insert(key, n);
        k4 = k4 + 1;
        proof {
            lemma_map_deep_insert(before, npcs_map, key, npcs_map@[key]);
            assert(nd.take(k4 as int).drop_last() =~= nd.take(k4 - 1));
            assert(nd.take(k4 as int).last() == nd[k4 - 1]);
            assert(npcs_map@[key].deep_view() == nd[k4 - 1]);
        }
    }
    let mut containers_map: HashMap<u32, Container> = HashMap::new();
    let mut k5: usize = 0;
    proof {
        lemma_map_deep_empty(containers_map);
        assert(cd.take(0) =~= Seq::<Container>::empty());
    }
    while k5 < containers_flat.len()
        invariant
            k5 <= containers_flat@.len(),
            containers_map.deep_view() == map_containers(cd.take(k5 as int)),
        decreases containers_flat@.len() - k5,
    {
        let ghost before = containers_map;
        let c = containers_flat[k5];
        let key = c.id;
        containers_map.insert(key, c);
        k5 = k5 + 1;
        proof {
            lemma_map_deep_insert(before, containers_map, key, containers_map@[key]);
            assert(cd.take(k5 as int).drop_last() =~= cd.take(k5 - 1));
            assert(cd.take(k5 as int).last() == cd[k5 - 1]);
        }
    }
    proof {
        assert(td.take(td.len() as int) =~= td);
        assert(bd.take(bd.len() as int) =~= bd);
        assert(rd.take(rd.len() as int) =~= rd);
        assert(nd.take(nd.len() as int) =~= nd);
        assert(cd.take(cd.len() as int) =~= cd);
    }
    World {
        towns: towns_map,
        buildings: buildings_map,
        rooms: rooms_map,
        npcs: npcs_map,
        containers: containers_map,
    }
}

} // verus!
