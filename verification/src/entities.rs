//! The entity tree a generation run produces, and its mathematical models.
//!
//! A `Town` exclusively owns its `Building`s, a `Building` its `Room`s, and a
//! `Room` its `Npc`s and `Container`s; every entity carries back-references
//! (by identifier) to its owners.  Each executable type has a ghost model —
//! the same shape with `String` replaced by `Seq<char>` and `Vec` by `Seq` —
//! and the generator's contracts speak entirely about those models.
use vstd::prelude::*;

verus! {

/// The category of a building; the category decides how the building and its
/// inhabitants are named and how many inhabitants it houses.
#[derive(Clone, Copy, Debug, PartialEq, Eq, Structural)]
pub enum BuildingType {
    Residence,
    Shop,
    Tavern,
    Temple,
}

/// The sex tag of an inhabitant; it selects the first-name list.
#[derive(Clone, Copy, Debug, PartialEq, Eq, Structural)]
pub enum NpcSex {
    Male,
    Female,
    Unisex,
}

/// The race tag of an inhabitant.
#[derive(Clone, Copy, Debug, PartialEq, Eq, Structural)]
pub enum NpcRace {
    Human,
    Elf,
}

/// The kind of a container.
#[derive(Clone, Copy, Debug, PartialEq, Eq, Structural)]
pub enum ContainerType {
    Barrel,
    Crate,
    Chest,
}

/// The attributes of one travel connection: a drawn distance and the cost
/// derived from it.
#[derive(Clone, Copy, Debug, PartialEq, Eq, Structural)]
pub struct JourneyInfo {
    pub distance: u32,
    pub cost: u32,
}

/// One undirected travel connection between the towns at vertex positions
/// `source` and `target` of a graph.
#[derive(Clone, Copy, Debug, PartialEq, Eq, Structural)]
pub struct Edge {
    pub source: usize,
    pub target: usize,
    pub info: JourneyInfo,
}

/// A storage container placed in a room.
#[derive(Clone, Copy, Debug, PartialEq, Eq, Structural)]
pub struct Container {
    pub id: u32,
    pub container_type: ContainerType,
    pub town_id: u32,
    pub building_id: u32,
    pub room_id: u32,
}

/// An inhabitant.  `room_id` is set once the inhabitant is placed in a room.
#[derive(Debug, PartialEq)]
pub struct Npc {
    pub id: u32,
    pub name: String,
    pub sex: NpcSex,
    pub race: NpcRace,
    pub town_id: u32,
    pub building_id: u32,
    pub room_id: Option<u32>,
}

/// A room of a building, owning the inhabitants placed in it and its
/// containers.
#[derive(Debug, PartialEq)]
pub struct Room {
    pub id: u32,
    pub town_id: u32,
    pub building_id: u32,
    pub npcs: Vec<Npc>,
    pub containers: Vec<Container>,
}

/// A building of a town, owning its rooms.
#[derive(Debug, PartialEq)]
pub struct Building {
    pub id: u32,
    pub name: String,
    pub building_type: BuildingType,
    pub town_id: u32,
    pub coords: (u32, u32),
    pub rooms: Vec<Room>,
}

/// A town, owning its buildings.
#[derive(Debug, PartialEq)]
pub struct Town {
    pub id: u32,
    pub name: String,
    pub coords: (u32, u32),
    pub number_of_buildings: u32,
    pub buildings: Vec<Building>,
}

/// Model of an `Npc`.
pub ghost struct NpcM {
    pub id: u32,
    pub name: Seq<char>,
    pub sex: NpcSex,
    pub race: NpcRace,
    pub town_id: u32,
    pub building_id: u32,
    pub room_id: Option<u32>,
}

/// Model of a `Room`.
pub ghost struct RoomM {
    pub id: u32,
    pub town_id: u32,
    pub building_id: u32,
    pub npcs: Seq<NpcM>,
    pub containers: Seq<Container>,
}

/// Model of a `Building`.
pub ghost struct BuildingM {
    pub id: u32,
    pub name: Seq<char>,
    pub building_type: BuildingType,
    pub town_id: u32,
    pub coords: (u32, u32),
    pub rooms: Seq<RoomM>,
}

/// Model of a `Town`.
pub ghost struct TownM {
    pub id: u32,
    pub name: Seq<char>,
    pub coords: (u32, u32),
    pub number_of_buildings: u32,
    pub buildings: Seq<BuildingM>,
}

impl DeepView for Container {
    type V = Container;

    open spec fn deep_view(&self) -> Container {
        *self
    }
}

impl View for Container {
    type V = Container;

    open spec fn view(&self) -> Container {
        *self
    }
}

impl DeepView for Npc {
    type V = NpcM;

    open spec fn deep_view(&self) -> NpcM {
        NpcM {
            id: self.id,
            name: self.name@,
            sex: self.sex,
            race: self.race,
            town_id: self.town_id,
            building_id: self.building_id,
            room_id: self.room_id,
        }
    }
}

impl View for Npc {
    type V = NpcM;

    open spec fn view(&self) -> NpcM {
        self.deep_view()
    }
}

impl DeepView for Room {
    type V = RoomM;

    open spec fn deep_view(&self) -> RoomM {
        RoomM {
            id: self.id,
            town_id: self.town_id,
            building_id: self.building_id,
            npcs: self.npcs.deep_view(),
            containers: self.containers@,
        }
    }
}

impl View for Room {
    type V = RoomM;

    open spec fn view(&self) -> RoomM {
        self.deep_view()
    }
}

impl DeepView for Building {
    type V = BuildingM;

    open spec fn deep_view(&self) -> BuildingM {
        BuildingM {
            id: self.id,
            name: self.name@,
            building_type: self.building_type,
            town_id: self.town_id,
            coords: self.coords,
            rooms: self.rooms.deep_view(),
        }
    }
}

impl View for Building {
    type V = BuildingM;

    open spec fn view(&self) -> BuildingM {
        self.deep_view()
    }
}

impl DeepView for Town {
    type V = TownM;

    open spec fn deep_view(&self) -> TownM {
        TownM {
            id: self.id,
            name: self.name@,
            coords: self.coords,
            number_of_buildings: self.number_of_buildings,
            buildings: self.buildings.deep_view(),
        }
    }
}

impl View for Town {
    type V = TownM;

    open spec fn view(&self) -> TownM {
        self.deep_view()
    }
}

impl Clone for Npc {
    /// A clone carries the same model.
    fn clone(&self) -> (r: Npc)
        ensures
            r.deep_view() == self.deep_view(),
    {
        Npc {
            id: self.id,
            name: self.name.clone(),
            sex: self.sex,
            race: self.race,
            town_id: self.town_id,
            building_id: self.building_id,
            room_id: self.room_id,
        }
    }
}

impl Clone for Room {
    /// A clone carries the same model.
    fn clone(&self) -> (r: Room)
        ensures
            r.deep_view() == self.deep_view(),
    {
        let r = Room {
            id: self.id,
            town_id: self.town_id,
            building_id: self.building_id,
            npcs: self.npcs.clone(),
            containers: self.containers.clone(),
        };
        proof {
            assert(r.npcs.deep_view() =~= self.npcs.deep_view());
            assert(r.containers@ =~= self.containers@);
        }
        r
    }
}

impl Clone for Building {
    /// A clone carries the same model.
    fn clone(&self) -> (r: Building)
        ensures
            r.deep_view() == self.deep_view(),
    {
        let r = Building {
            id: self.id,
            name: self.name.clone(),
            building_type: self.building_type,
            town_id: self.town_id,
            coords: self.coords,
            rooms: self.rooms.clone(),
        };
        proof {
            assert(r.rooms.deep_view() =~= self.rooms.deep_view());
        }
        r
    }
}

impl Clone for Town {
    /// A clone carries the same model.
    fn clone(&self) -> (r: Town)
        ensures
            r.deep_view() == self.deep_view(),
    {
        let r = Town {
            id: self.id,
            name: self.name.clone(),
            coords: self.coords,
            number_of_buildings: self.number_of_buildings,
            buildings: self.buildings.clone(),
        };
        proof {
            assert(r.buildings.deep_view() =~= self.buildings.deep_view());
        }
        r
    }
}

/// The identifiers of one room's contents, in tree order: the room itself,
/// its inhabitants, its containers.
pub open spec fn room_ids(r: RoomM) -> Seq<u32> {
    seq![r.id] + r.npcs.map_values(|n: NpcM| n.id) + r.containers.map_values(
        |c: Container| c.id,
    )
}

/// The identifiers of one building's contents, in tree order.
pub open spec fn rooms_ids(rs: Seq<RoomM>) -> Seq<u32>
    decreases rs.len(),
{
    if rs.len() == 0 {
        Seq::empty()
    } else {
        rooms_ids(rs.drop_last()) + room_ids(rs.last())
    }
}

/// The identifiers of one building and everything inside it, in tree order.
pub open spec fn building_ids(b: BuildingM) -> Seq<u32> {
    seq![b.id] + rooms_ids(b.rooms)
}

pub open spec fn buildings_ids(bs: Seq<BuildingM>) -> Seq<u32>
    decreases bs.len(),
{
    if bs.len() == 0 {
        Seq::empty()
    } else {
        buildings_ids(bs.drop_last()) + building_ids(bs.last())
    }
}

/// The identifiers of one town and everything inside it, in tree order.
pub open spec fn town_ids(t: TownM) -> Seq<u32> {
    seq![t.id] + buildings_ids(t.buildings)
}

/// Every identifier of every entity of every town, in tree order.
pub open spec fn towns_ids(ts: Seq<TownM>) -> Seq<u32>
    decreases ts.len(),
{
    if ts.len() == 0 {
        Seq::empty()
    } else {
        towns_ids(ts.drop_last()) + town_ids(ts.last())
    }
}

/// Every identifier of `ids` is in the set `s`.
pub open spec fn ids_in(ids: Seq<u32>, s: Set<u32>) -> bool {
    forall|k: int| 0 <= k < ids.len() ==> s.contains(#[trigger] ids[k])
}

/// No identifier of `ids` is in the set `s`.
pub open spec fn ids_fresh(ids: Seq<u32>, s: Set<u32>) -> bool {
    forall|k: int| 0 <= k < ids.len() ==> !s.contains(#[trigger] ids[k])
}

/// Concatenating two duplicate-free identifier sequences stays duplicate-free
/// when the second is disjoint from any set containing the first.
pub proof fn lemma_ids_concat_no_dup(a: Seq<u32>, b: Seq<u32>, s: Set<u32>)
    requires
        a.no_duplicates(),
        b.no_duplicates(),
        ids_in(a, s),
        ids_fresh(b, s),
    ensures
        (a + b).no_duplicates(),
{
    assert forall|i: int, j: int|
        0 <= i < (a + b).len() && 0 <= j < (a + b).len() && i != j implies (a + b)[i] != (a
        + b)[j] by {
        if i < a.len() && j >= a.len() {
            assert(s.contains(a[i]) && !s.contains(b[j - a.len()]));
        } else if i >= a.len() && j < a.len() {
            assert(s.contains(a[j]) && !s.contains(b[i - a.len()]));
        }
    }
}

/// How many inhabitants the rooms of a building hold in total.
pub open spec fn rooms_npc_total(rs: Seq<RoomM>) -> nat
    decreases rs.len(),
{
    if rs.len() == 0 {
        0
    } else {
        rooms_npc_total(rs.drop_last()) + rs.last().npcs.len()
    }
}

/// Appending one inhabitant to any single room raises the total by one.
pub proof fn lemma_rooms_npc_total_push(rs: Seq<RoomM>, j: int, r2: RoomM)
    requires
        0 <= j < rs.len(),
        r2.npcs.len() == rs[j].npcs.len() + 1,
    ensures
        rooms_npc_total(rs.update(j, r2)) == rooms_npc_total(rs) + 1,
    decreases rs.len(),
{
    let up = rs.update(j, r2);
    if j == rs.len() - 1 {
        assert(up.drop_last() =~= rs.drop_last());
        assert(up.last() == r2);
    } else {
        assert(up.drop_last() =~= rs.drop_last().update(j, r2));
        assert(up.last() == rs.last());
        lemma_rooms_npc_total_push(rs.drop_last(), j, r2);
    }
}

} // verus!
