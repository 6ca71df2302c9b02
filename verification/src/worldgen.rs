//! The hierarchical world generator: towns, buildings, rooms, inhabitants
//! and containers, strictly top-down.
//!
//! Every function is pinned to a spec mirror over the threaded generation
//! state (`GenState`), so the whole tree is a mathematical function of the
//! seed, the configuration and the word lists — the determinism the rest of
//! the pipeline rests on.  Alongside the mirror, each function carries the
//! structural laws: identifier freshness and distinctness, back-reference
//! consistency, and the per-category inhabitant counts.
use vstd::prelude::*;

use crate::config::{GenConfig, GenError, WordLists};
use crate::entities::{
    lemma_rooms_npc_total_push, Building, BuildingM,
    ids_fresh, ids_in, lemma_ids_concat_no_dup, room_ids, rooms_npc_total, BuildingType, Container,
    ContainerType, Npc, NpcM, NpcRace, NpcSex, Room, RoomM,
};
use crate::ids::{spec_alloc_id, GenState, IdTracker};
use crate::rng::{rng_next_index, spec_draw_count, stdrng_gen_index, stdrng_state};
use vstd::assert_multisets_equal;

verus! {

/// The abstract generation state carried by a random source and an id
/// tracker.
pub open spec fn st_of(rng: rand::rngs::StdRng, ids: IdTracker) -> GenState {
    GenState { rng: stdrng_state(rng), id_rng: ids.state(), issued: ids.issued() }
}

/// One uniform choice among the four building categories.
pub open spec fn spec_choose_building_type(state: int) -> (int, BuildingType) {
    let (s2, i) = rng_next_index(state, 0, 4);
    (
        s2,
        if i == 0 {
            BuildingType::Residence
        } else if i == 1 {
            BuildingType::Shop
        } else if i == 2 {
            BuildingType::Tavern
        } else {
            BuildingType::Temple
        },
    )
}

/// Choose a building category uniformly; the choice is exhaustive over the
/// four variants by construction.
pub fn choose_building_type(rng: &mut rand::rngs::StdRng) -> (r: BuildingType)
    ensures
        (stdrng_state(*final(rng)), r) == spec_choose_building_type(stdrng_state(*old(rng))),
{
    let i = stdrng_gen_index(rng, 0, 4);
    if i == 0 {
        BuildingType::Residence
    } else if i == 1 {
        BuildingType::Shop
    } else if i == 2 {
        BuildingType::Tavern
    } else {
        BuildingType::Temple
    }
}

/// One uniform choice among the three sex tags.
pub open spec fn spec_choose_sex(state: int) -> (int, NpcSex) {
    let (s2, i) = rng_next_index(state, 0, 3);
    (
        s2,
        if i == 0 {
            NpcSex::Male
        } else if i == 1 {
            NpcSex::Female
        } else {
            NpcSex::Unisex
        },
    )
}

/// Choose a sex tag uniformly.
pub fn choose_sex(rng: &mut rand::rngs::StdRng) -> (r: NpcSex)
    ensures
        (stdrng_state(*final(rng)), r) == spec_choose_sex(stdrng_state(*old(rng))),
{
    let i = stdrng_gen_index(rng, 0, 3);
    if i == 0 {
        NpcSex::Male
    } else if i == 1 {
        NpcSex::Female
    } else {
        NpcSex::Unisex
    }
}

/// One uniform choice among the two race tags.
pub open spec fn spec_choose_race(state: int) -> (int, NpcRace) {
    let (s2, i) = rng_next_index(state, 0, 2);
    (s2, if i == 0 { NpcRace::Human } else { NpcRace::Elf })
}

/// Choose a race tag uniformly.
pub fn choose_race(rng: &mut rand::rngs::StdRng) -> (r: NpcRace)
    ensures
        (stdrng_state(*final(rng)), r) == spec_choose_race(stdrng_state(*old(rng))),
{
    let i = stdrng_gen_index(rng, 0, 2);
    if i == 0 {
        NpcRace::Human
    } else {
        NpcRace::Elf
    }
}

/// One uniform choice among the three container kinds.
pub open spec fn spec_choose_container_type(state: int) -> (int, ContainerType) {
    let (s2, i) = rng_next_index(state, 0, 3);
    (
        s2,
        if i == 0 {
            ContainerType::Barrel
        } else if i == 1 {
            ContainerType::Crate
        } else {
            ContainerType::Chest
        },
    )
}

/// Choose a container kind uniformly.
pub fn choose_container_type(rng: &mut rand::rngs::StdRng) -> (r: ContainerType)
    ensures
        (stdrng_state(*final(rng)), r) == spec_choose_container_type(stdrng_state(*old(rng))),
{
    let i = stdrng_gen_index(rng, 0, 3);
    if i == 0 {
        ContainerType::Barrel
    } else if i == 1 {
        ContainerType::Crate
    } else {
        ContainerType::Chest
    }
}

/// One container: a fresh identifier, then a uniformly chosen kind.
pub open spec fn spec_gen_container(
    cfg: GenConfig,
    town_id: u32,
    building_id: u32,
    room_id: u32,
    st: GenState,
) -> Result<(Container, GenState), GenError> {
    match spec_alloc_id(st, cfg) {
        Ok((id, st1)) => {
            let (r2, kind) = spec_choose_container_type(st1.rng);
            Ok(
                (
                    Container { id, container_type: kind, town_id, building_id, room_id },
                    GenState { rng: r2, ..st1 },
                ),
            )
        },
        Err(e) => Err(e),
    }
}

/// The remaining `k` containers, appended to `acc`.
pub open spec fn spec_gen_containers_rec(
    cfg: GenConfig,
    town_id: u32,
    building_id: u32,
    room_id: u32,
    st: GenState,
    acc: Seq<Container>,
    k: nat,
) -> Result<(Seq<Container>, GenState), GenError>
    decreases k,
{
    if k == 0 {
        Ok((acc, st))
    } else {
        match spec_gen_container(cfg, town_id, building_id, room_id, st) {
            Ok((c, st1)) => spec_gen_containers_rec(
                cfg,
                town_id,
                building_id,
                room_id,
                st1,
                acc.push(c),
                (k - 1) as nat,
            ),
            Err(e) => Err(e),
        }
    }
}

/// All containers of one room: a drawn count, then that many containers.
pub open spec fn spec_gen_containers(
    cfg: GenConfig,
    town_id: u32,
    building_id: u32,
    room_id: u32,
    st: GenState,
) -> Result<(Seq<Container>, GenState), GenError> {
    let (r2, n) = spec_draw_count(st.rng, cfg.min_containers, cfg.max_containers);
    spec_gen_containers_rec(
        cfg,
        town_id,
        building_id,
        room_id,
        GenState { rng: r2, ..st },
        Seq::empty(),
        n as nat,
    )
}

/// Generate the containers of one room.  An empty count range yields no
/// containers; identifiers are fresh and pairwise distinct; every container
/// carries the back-references it was generated under.
pub fn generate_containers(
    settings: &GenConfig,
    rng: &mut rand::rngs::StdRng,
    id_tracker: &mut IdTracker,
    town_id: u32,
    building_id: u32,
    room_id: u32,
) -> (r: Result<Vec<Container>, GenError>)
    requires
        settings.id_range_ok(),
    ensures
        old(id_tracker).issued().subset_of(final(id_tracker).issued()),
        match (
            spec_gen_containers(
                *settings,
                town_id,
                building_id,
                room_id,
                st_of(*old(rng), *old(id_tracker)),
            ),
            r,
        ) {
            (Ok((cs, st2)), Ok(v)) => v@ == cs && st_of(*final(rng), *final(id_tracker)) == st2,
            (Err(e), Err(e2)) => e2 == e,
            _ => false,
        },
        (match r {
            Ok(v) => {
                &&& v@.map_values(|c: Container| c.id).no_duplicates()
                &&& ids_in(v@.map_values(|c: Container| c.id), final(id_tracker).issued())
                &&& ids_fresh(v@.map_values(|c: Container| c.id), old(id_tracker).issued())
                &&& forall|k: int|
                    0 <= k < v@.len() ==> (#[trigger] v@[k]).town_id == town_id && v@[k].building_id
                        == building_id && v@[k].room_id == room_id
                &&& settings.min_containers >= settings.max_containers ==> v@.len() == 0
                &&& settings.min_containers < settings.max_containers
                    ==> settings.min_containers <= v@.len() < settings.max_containers
            },
            Err(_) => true,
        }),
{
    let n = draw_count_containers(settings, rng);
    let ghost st_start = st_of(*rng, *id_tracker);
    let mut out: Vec<Container> = Vec::new();
    let mut i: u32 = 0;
    while i < n
        invariant
            settings.id_range_ok(),
            i <= n,
            out@.len() == i,
            spec_gen_containers(
                *settings,
                town_id,
                building_id,
                room_id,
                st_of(*old(rng), *old(id_tracker)),
            ) == spec_gen_containers_rec(
                *settings,
                town_id,
                building_id,
                room_id,
                st_of(*rng, *id_tracker),
                out@,
                (n - i) as nat,
            ),
            old(id_tracker).issued().subset_of(id_tracker.issued()),
            out@.map_values(|c: Container| c.id).no_duplicates(),
            ids_in(out@.map_values(|c: Container| c.id), id_tracker.issued()),
            ids_fresh(out@.map_values(|c: Container| c.id), old(id_tracker).issued()),
            forall|k: int|
                0 <= k < out@.len() ==> (#[trigger] out@[k]).town_id == town_id
                    && out@[k].building_id == building_id && out@[k].room_id == room_id,
        decreases n - i,
    {
        let ghost ids_before = out@.map_values(|c: Container| c.id);
        let id = match id_tracker.get_new_id(settings) {
            Ok(id) => id,
            Err(e) => {
                return Err(e);
            },
        };
        let kind = choose_container_type(rng);
        let c = Container { id, container_type: kind, town_id, building_id, room_id };
        proof {
            let ids_after = out@.push(c).map_values(|cc: Container| cc.id);
            assert(ids_after =~= ids_before.push(id));
            lemma_ids_concat_no_dup(ids_before, seq![id], id_tracker.issued().remove(id));
            assert(ids_before.push(id) =~= ids_before + seq![id]);
        }
        out.push(c);
        i = i + 1;
    }
    Ok(out)
}

/// Draw the container count for one room.
fn draw_count_containers(settings: &GenConfig, rng: &mut rand::rngs::StdRng) -> (r: u32)
    ensures
        (stdrng_state(*final(rng)), r) == spec_draw_count(
            stdrng_state(*old(rng)),
            settings.min_containers,
            settings.max_containers,
        ),
        settings.min_containers < settings.max_containers ==> settings.min_containers <= r
            < settings.max_containers,
        settings.min_containers >= settings.max_containers ==> r == 0,
{
    crate::rng::draw_count(rng, settings.min_containers, settings.max_containers)
}

/// How many inhabitants one building houses: exactly one for a shop, exactly
/// two for a residence, and a drawn count from `[min_npcs, max_npcs)` for a
/// tavern or temple.
pub open spec fn spec_npc_count(cfg: GenConfig, building_type: BuildingType, state: int) -> (
    int,
    u32,
) {
    match building_type {
        BuildingType::Shop => (state, 1),
        BuildingType::Residence => (state, 2),
        _ => spec_draw_count(state, cfg.min_npcs, cfg.max_npcs),
    }
}

/// One inhabitant: a fresh identifier, a uniform sex tag, a uniform race
/// tag, and a synthesized name.
pub open spec fn spec_gen_npc(
    cfg: GenConfig,
    lists: crate::config::WordListsM,
    town_id: u32,
    building_id: u32,
    building_name: Seq<char>,
    building_type: BuildingType,
    st: GenState,
) -> Result<(NpcM, GenState), GenError> {
    match spec_alloc_id(st, cfg) {
        Ok((id, st1)) => {
            let (r2, sex) = spec_choose_sex(st1.rng);
            let (r3, race) = spec_choose_race(r2);
            let (name, r4) = crate::namegen::spec_npc_name(
                r3,
                building_name,
                building_type,
                sex,
                lists.names_male,
                lists.names_female,
                lists.names_unisex,
                lists.surnames,
            );
            Ok(
                (
                    NpcM { id, name, sex, race, town_id, building_id, room_id: None },
                    GenState { rng: r4, ..st1 },
                ),
            )
        },
        Err(e) => Err(e),
    }
}

/// The remaining `k` inhabitants, appended to `acc`.
pub open spec fn spec_gen_npcs_rec(
    cfg: GenConfig,
    lists: crate::config::WordListsM,
    town_id: u32,
    building_id: u32,
    building_name: Seq<char>,
    building_type: BuildingType,
    st: GenState,
    acc: Seq<NpcM>,
    k: nat,
) -> Result<(Seq<NpcM>, GenState), GenError>
    decreases k,
{
    if k == 0 {
        Ok((acc, st))
    } else {
        match spec_gen_npc(cfg, lists, town_id, building_id, building_name, building_type, st) {
            Ok((npc, st1)) => spec_gen_npcs_rec(
                cfg,
                lists,
                town_id,
                building_id,
                building_name,
                building_type,
                st1,
                acc.push(npc),
                (k - 1) as nat,
            ),
            Err(e) => Err(e),
        }
    }
}

/// All inhabitants of one building: the category-ruled count, then that many
/// inhabitants.
pub open spec fn spec_gen_npcs(
    cfg: GenConfig,
    lists: crate::config::WordListsM,
    town_id: u32,
    building_id: u32,
    building_name: Seq<char>,
    building_type: BuildingType,
    st: GenState,
) -> Result<(Seq<NpcM>, GenState), GenError> {
    let (r2, n) = spec_npc_count(cfg, building_type, st.rng);
    spec_gen_npcs_rec(
        cfg,
        lists,
        town_id,
        building_id,
        building_name,
        building_type,
        GenState { rng: r2, ..st },
        Seq::empty(),
        n as nat,
    )
}

/// Generate the inhabitants of one building, not yet placed in rooms.  The
/// count follows the category rule: one for a shop, two for a residence, a
/// drawn count from `[min_npcs, max_npcs)` for a tavern or temple (zero when
/// that range is empty).
pub fn generate_npcs(
    settings: &GenConfig,
    rng: &mut rand::rngs::StdRng,
    id_tracker: &mut IdTracker,
    town_id: u32,
    building_id: u32,
    building_name: &str,
    building_type: &BuildingType,
    lists: &WordLists,
) -> (r: Result<Vec<Npc>, GenError>)
    requires
        settings.id_range_ok(),
    ensures
        old(id_tracker).issued().subset_of(final(id_tracker).issued()),
        match (
            spec_gen_npcs(
                *settings,
                lists@,
                town_id,
                building_id,
                building_name@,
                *building_type,
                st_of(*old(rng), *old(id_tracker)),
            ),
            r,
        ) {
            (Ok((ns, st2)), Ok(v)) => v.deep_view() == ns && st_of(*final(rng), *final(id_tracker))
                == st2,
            (Err(e), Err(e2)) => e2 == e,
            _ => false,
        },
        (match r {
            Ok(v) => {
                &&& v.deep_view().map_values(|n: NpcM| n.id).no_duplicates()
                &&& ids_in(
                    v.deep_view().map_values(|n: NpcM| n.id),
                    final(id_tracker).issued(),
                )
                &&& ids_fresh(
                    v.deep_view().map_values(|n: NpcM| n.id),
                    old(id_tracker).issued(),
                )
                &&& forall|k: int|
                    0 <= k < v.deep_view().len() ==> (#[trigger] v.deep_view()[k]).town_id
                        == town_id && v.deep_view()[k].building_id == building_id
                        && v.deep_view()[k].room_id is None
                &&& building_type is Shop ==> v@.len() == 1
                &&& building_type is Residence ==> v@.len() == 2
                &&& (building_type is Tavern || building_type is Temple) ==> {
                    &&& settings.min_npcs < settings.max_npcs ==> settings.min_npcs <= v@.len()
                        < settings.max_npcs
                    &&& settings.min_npcs >= settings.max_npcs ==> v@.len() == 0
                }
            },
            Err(_) => true,
        }),
{
    let n: u32 = match building_type {
        BuildingType::Shop => 1,
        BuildingType::Residence => 2,
        _ => crate::rng::draw_count(rng, settings.min_npcs, settings.max_npcs),
    };
    let mut out: Vec<Npc> = Vec::new();
    let mut i: u32 = 0;
    proof {
        assert(out.deep_view() =~= Seq::<NpcM>::empty());
        assert(out.deep_view().map_values(|nn: NpcM| nn.id) =~= Seq::<u32>::empty());
    }
    while i < n
        invariant
            settings.id_range_ok(),
            i <= n,
            out@.len() == i,
            spec_gen_npcs(
                *settings,
                lists@,
                town_id,
                building_id,
                building_name@,
                *building_type,
                st_of(*old(rng), *old(id_tracker)),
            ) == spec_gen_npcs_rec(
                *settings,
                lists@,
                town_id,
                building_id,
                building_name@,
                *building_type,
                st_of(*rng, *id_tracker),
                out.deep_view(),
                (n - i) as nat,
            ),
            old(id_tracker).issued().subset_of(id_tracker.issued()),
            out.deep_view().map_values(|nn: NpcM| nn.id).no_duplicates(),
            ids_in(out.deep_view().map_values(|nn: NpcM| nn.id), id_tracker.issued()),
            ids_fresh(out.deep_view().map_values(|nn: NpcM| nn.id), old(id_tracker).issued()),
            forall|k: int|
                0 <= k < out.deep_view().len() ==> (#[trigger] out.deep_view()[k]).town_id
                    == town_id && out.deep_view()[k].building_id == building_id
                    && out.deep_view()[k].room_id is None,
        decreases n - i,
    {
        let ghost ids_before = out.deep_view().map_values(|nn: NpcM| nn.id);
        let ghost st_entry = st_of(*rng, *id_tracker);
        let id = match id_tracker.get_new_id(settings) {
            Ok(id) => id,
            Err(e) => {
                return Err(e);
            },
        };
        let sex = choose_sex(rng);
        let race = choose_race(rng);
        let name = crate::namegen::generate_npc_name(
            rng,
            building_name,
            building_type,
            &sex,
            &lists.names_male,
            &lists.names_female,
            &lists.names_unisex,
            &lists.surnames,
        );
        let npc = Npc { id, name, sex, race, town_id, building_id, room_id: None };
        let ghost old_deep = out.deep_view();
        out.push(npc);
        i = i + 1;
        proof {
            assert(out.deep_view() =~= old_deep.push(npc.deep_view()));
            assert(spec_gen_npc(
                *settings,
                lists@,
                town_id,
                building_id,
                building_name@,
                *building_type,
                st_entry,
            ) == Ok::<(NpcM, GenState), GenError>((npc.deep_view(), st_of(*rng, *id_tracker))));
            let ids_after = out.deep_view().map_values(|nn: NpcM| nn.id);
            assert(ids_after =~= ids_before.push(id));
            assert(ids_before.push(id) =~= ids_before + seq![id]);
            lemma_ids_concat_no_dup(ids_before, seq![id], id_tracker.issued().remove(id));
        }
    }
    Ok(out)
}

/// Concatenation, over a room sequence, of one projection of each room.
pub open spec fn rooms_flat(rs: Seq<RoomM>, f: spec_fn(RoomM) -> Seq<u32>) -> Seq<u32>
    decreases rs.len(),
{
    if rs.len() == 0 {
        Seq::empty()
    } else {
        rooms_flat(rs.drop_last(), f) + f(rs.last())
    }
}

/// The projection picking a room's own identifier.
pub open spec fn room_own_id_fn() -> spec_fn(RoomM) -> Seq<u32> {
    |r: RoomM| seq![r.id]
}

/// The projection picking the identifiers of a room's inhabitants.
pub open spec fn room_npc_ids_fn() -> spec_fn(RoomM) -> Seq<u32> {
    |r: RoomM| r.npcs.map_values(|n: NpcM| n.id)
}

/// The projection picking the identifiers of a room's containers.
pub open spec fn room_cont_ids_fn() -> spec_fn(RoomM) -> Seq<u32> {
    |r: RoomM| r.containers.map_values(|c: Container| c.id)
}

/// Replacing one room by a room with the same projection leaves the
/// concatenated projection unchanged.
pub proof fn lemma_rooms_flat_update(
    rs: Seq<RoomM>,
    j: int,
    r2: RoomM,
    f: spec_fn(RoomM) -> Seq<u32>,
)
    requires
        0 <= j < rs.len(),
        f(r2) == f(rs[j]),
    ensures
        rooms_flat(rs.update(j, r2), f) == rooms_flat(rs, f),
    decreases rs.len(),
{
    let up = rs.update(j, r2);
    if j == rs.len() - 1 {
        assert(up.drop_last() =~= rs.drop_last());
        assert(up.last() == r2);
    } else {
        assert(up.drop_last() =~= rs.drop_last().update(j, r2));
        assert(up.last() == rs.last());
        lemma_rooms_flat_update(rs.drop_last(), j, r2, f);
    }
}

/// Replacing one room by a room whose projection has one element appended
/// adds exactly that element to the concatenated projection's multiset.
pub proof fn lemma_rooms_flat_update_push(
    rs: Seq<RoomM>,
    j: int,
    r2: RoomM,
    x: u32,
    f: spec_fn(RoomM) -> Seq<u32>,
)
    requires
        0 <= j < rs.len(),
        f(r2) == f(rs[j]).push(x),
    ensures
        rooms_flat(rs.update(j, r2), f).to_multiset() == rooms_flat(rs, f).to_multiset().insert(x),
    decreases rs.len(),
{
    broadcast use vstd::seq_lib::group_seq_properties;

    let up = rs.update(j, r2);
    if j == rs.len() - 1 {
        assert(up.drop_last() =~= rs.drop_last());
        assert(up.last() == r2);
        vstd::seq_lib::lemma_multiset_commutative(rooms_flat(rs.drop_last(), f), f(r2));
        vstd::seq_lib::lemma_multiset_commutative(rooms_flat(rs.drop_last(), f), f(rs.last()));
        f(rs.last()).to_multiset_ensures();
        assert(f(r2).to_multiset() =~= f(rs.last()).to_multiset().insert(x));
        assert(rooms_flat(up, f).to_multiset() =~= rooms_flat(rs, f).to_multiset().insert(x));
    } else {
        assert(up.drop_last() =~= rs.drop_last().update(j, r2));
        assert(up.last() == rs.last());
        lemma_rooms_flat_update_push(rs.drop_last(), j, r2, x, f);
        vstd::seq_lib::lemma_multiset_commutative(rooms_flat(rs.drop_last().update(j, r2), f), f(rs.last()));
        vstd::seq_lib::lemma_multiset_commutative(rooms_flat(rs.drop_last(), f), f(rs.last()));
        assert(rooms_flat(up, f).to_multiset() =~= rooms_flat(rs, f).to_multiset().insert(x));
    }
}

/// One shuffle of the remaining inhabitants: repeatedly draw a uniform index
/// into what is left, move that inhabitant to the output.
pub open spec fn spec_shuffle_rec(state: int, remaining: Seq<NpcM>, acc: Seq<NpcM>) -> (
    Seq<NpcM>,
    int,
)
    decreases remaining.len(),
{
    if remaining.len() == 0 {
        (acc, state)
    } else {
        let (st2, j) = rng_next_index(state, 0, remaining.len() as usize);
        if j < remaining.len() {
            spec_shuffle_rec(st2, remaining.remove(j as int), acc.push(remaining[j as int]))
        } else {
            (acc + remaining, st2)
        }
    }
}

/// A full shuffle of `s` with the seeded random source.
pub open spec fn spec_shuffle(state: int, s: Seq<NpcM>) -> (Seq<NpcM>, int) {
    spec_shuffle_rec(state, s, Seq::empty())
}

/// A shuffle is a permutation: it preserves the multiset of inhabitants, the
/// multiset of their identifiers, and the length.
pub proof fn lemma_shuffle_rec_multiset(state: int, remaining: Seq<NpcM>, acc: Seq<NpcM>)
    ensures
        spec_shuffle_rec(state, remaining, acc).0.to_multiset() == acc.to_multiset().add(
            remaining.to_multiset(),
        ),
        spec_shuffle_rec(state, remaining, acc).0.map_values(|n: NpcM| n.id).to_multiset()
            == acc.map_values(|n: NpcM| n.id).to_multiset().add(
            remaining.map_values(|n: NpcM| n.id).to_multiset(),
        ),
        spec_shuffle_rec(state, remaining, acc).0.len() == acc.len() + remaining.len(),
    decreases remaining.len(),
{
    broadcast use vstd::multiset::group_multiset_axioms;

    let idf = |n: NpcM| n.id;
    if remaining.len() == 0 {
        remaining.to_multiset_ensures();
        vstd::multiset::lemma_multiset_empty_len(remaining.to_multiset());
        assert(remaining.to_multiset() =~= vstd::multiset::Multiset::<NpcM>::empty());
        remaining.map_values(idf).to_multiset_ensures();
        vstd::multiset::lemma_multiset_empty_len(remaining.map_values(idf).to_multiset());
        assert(acc.to_multiset() =~= acc.to_multiset().add(remaining.to_multiset()));
        assert(acc.map_values(idf).to_multiset() =~= acc.map_values(idf).to_multiset().add(
            remaining.map_values(idf).to_multiset(),
        ));
        acc.to_multiset_ensures();
        acc.map_values(idf).to_multiset_ensures();
    } else {
        let (st2, j) = rng_next_index(state, 0, remaining.len() as usize);
        if j < remaining.len() {
            let ji = j as int;
            let x = remaining[ji];
            lemma_shuffle_rec_multiset(st2, remaining.remove(ji), acc.push(x));
            acc.to_multiset_ensures();
            remaining.to_multiset_ensures();
            acc.map_values(idf).to_multiset_ensures();
            remaining.map_values(idf).to_multiset_ensures();
            assert(acc.push(x).to_multiset() =~= acc.to_multiset().insert(x));
            assert(remaining.remove(ji).to_multiset() =~= remaining.to_multiset().remove(x));
            assert(remaining.to_multiset().contains(x)) by {
                assert(remaining.contains(x));
            }
            assert(acc.to_multiset().insert(x).add(remaining.to_multiset().remove(x))
                =~= acc.to_multiset().add(remaining.to_multiset()));
            assert(acc.push(x).map_values(idf) =~= acc.map_values(idf).push(x.id));
            assert(remaining.remove(ji).map_values(idf) =~= remaining.map_values(idf).remove(ji));
            assert(remaining.map_values(idf).remove(ji).to_multiset() =~= remaining.map_values(
                idf,
            ).to_multiset().remove(x.id));
            assert(remaining.map_values(idf).to_multiset().contains(x.id)) by {
                assert(remaining.map_values(idf)[ji] == x.id);
                assert(remaining.map_values(idf).contains(x.id));
            }
            assert(acc.map_values(idf).to_multiset().insert(x.id).add(
                remaining.map_values(idf).to_multiset().remove(x.id),
            ) =~= acc.map_values(idf).to_multiset().add(remaining.map_values(idf).to_multiset()));
        } else {
            vstd::seq_lib::lemma_multiset_commutative(acc, remaining);
            vstd::seq_lib::lemma_multiset_commutative(acc.map_values(idf), remaining.map_values(idf));
            assert((acc + remaining).map_values(idf) =~= acc.map_values(idf)
                + remaining.map_values(idf));
        }
    }
}

/// Shuffle the inhabitants with the seeded random source.  The result is a
/// permutation of the input.
pub fn shuffle_npcs(rng: &mut rand::rngs::StdRng, npcs: Vec<Npc>) -> (r: Vec<Npc>)
    ensures
        ({
            let (s2, st2) = spec_shuffle(stdrng_state(*old(rng)), npcs.deep_view());
            r.deep_view() == s2 && stdrng_state(*final(rng)) == st2
        }),
        r.deep_view().to_multiset() == npcs.deep_view().to_multiset(),
        r.deep_view().map_values(|n: NpcM| n.id).to_multiset() == npcs.deep_view().map_values(
            |n: NpcM| n.id,
        ).to_multiset(),
        r@.len() == npcs@.len(),
{
    let ghost orig_deep = npcs.deep_view();
    let ghost orig_state = stdrng_state(*rng);
    let mut source = npcs;
    let mut out: Vec<Npc> = Vec::new();
    proof {
        assert(out.deep_view() =~= Seq::<NpcM>::empty());
    }
    while source.len() > 0
        invariant
            spec_shuffle(orig_state, orig_deep) == spec_shuffle_rec(
                stdrng_state(*rng),
                source.deep_view(),
                out.deep_view(),
            ),
            out@.len() + source@.len() == orig_deep.len(),
        decreases source.len(),
    {
        let ghost src_before = source.deep_view();
        let ghost out_before = out.deep_view();
        let j = stdrng_gen_index(rng, 0, source.len());
        let npc = source.remove(j);
        out.push(npc);
        proof {
            assert(source.deep_view() =~= src_before.remove(j as int));
            assert(out.deep_view() =~= out_before.push(src_before[j as int]));
        }
    }
    proof {
        assert(source.deep_view() =~= Seq::<NpcM>::empty());
        lemma_shuffle_rec_multiset(orig_state, orig_deep, Seq::empty());
        let idf = |n: NpcM| n.id;
        Seq::<NpcM>::empty().to_multiset_ensures();
        vstd::multiset::lemma_multiset_empty_len(Seq::<NpcM>::empty().to_multiset());
        Seq::<u32>::empty().to_multiset_ensures();
        vstd::multiset::lemma_multiset_empty_len(Seq::<u32>::empty().to_multiset());
        assert(Seq::<NpcM>::empty().map_values(idf) =~= Seq::<u32>::empty());
        broadcast use vstd::multiset::group_multiset_axioms;

        assert(Seq::<NpcM>::empty().to_multiset().add(orig_deep.to_multiset())
            =~= orig_deep.to_multiset());
        assert(Seq::<NpcM>::empty().map_values(idf).to_multiset().add(
            orig_deep.map_values(idf).to_multiset(),
        ) =~= orig_deep.map_values(idf).to_multiset());
        orig_deep.to_multiset_ensures();
        out.deep_view().to_multiset_ensures();
    }
    out
}

/// Place each inhabitant, in order, into a uniformly chosen room of the
/// building, recording the room on the inhabitant.  With no rooms to choose
/// from the inhabitants are dropped and no draw is made.
pub open spec fn spec_assign_npcs(state: int, rooms: Seq<RoomM>, npcs: Seq<NpcM>) -> (
    Seq<RoomM>,
    int,
)
    decreases npcs.len(),
{
    if npcs.len() == 0 || rooms.len() == 0 {
        (rooms, state)
    } else {
        let (st2, j) = rng_next_index(state, 0, rooms.len() as usize);
        let rooms2 = if j < rooms.len() {
            let room = rooms[j as int];
            let npc2 = NpcM { room_id: Some(room.id), ..npcs[0] };
            rooms.update(j as int, RoomM { npcs: room.npcs.push(npc2), ..room })
        } else {
            rooms
        };
        spec_assign_npcs(st2, rooms2, npcs.drop_first())
    }
}

/// A projection that is empty on every room concatenates to nothing.
pub proof fn lemma_rooms_flat_all_empty(rs: Seq<RoomM>, f: spec_fn(RoomM) -> Seq<u32>)
    requires
        forall|j: int| 0 <= j < rs.len() ==> f(#[trigger] rs[j]) == Seq::<u32>::empty(),
    ensures
        rooms_flat(rs, f) == Seq::<u32>::empty(),
    decreases rs.len(),
{
    if rs.len() > 0 {
        lemma_rooms_flat_all_empty(rs.drop_last(), f);
        assert(rooms_flat(rs, f) =~= Seq::<u32>::empty());
    }
}

/// The multiset of a room sequence's tree-order identifiers splits into the
/// rooms' own identifiers, their inhabitants' and their containers'.
pub proof fn lemma_rooms_ids_decompose(rs: Seq<RoomM>)
    ensures
        crate::entities::rooms_ids(rs).to_multiset() == rooms_flat(rs, room_own_id_fn())
            .to_multiset().add(rooms_flat(rs, room_npc_ids_fn()).to_multiset()).add(
            rooms_flat(rs, room_cont_ids_fn()).to_multiset(),
        ),
    decreases rs.len(),
{
    broadcast use vstd::multiset::group_multiset_axioms;

    if rs.len() == 0 {
        Seq::<u32>::empty().to_multiset_ensures();
        vstd::multiset::lemma_multiset_empty_len(Seq::<u32>::empty().to_multiset());
        assert(Seq::<u32>::empty().to_multiset() =~= vstd::multiset::Multiset::<u32>::empty());
        assert(crate::entities::rooms_ids(rs).to_multiset() =~= rooms_flat(rs, room_own_id_fn())
            .to_multiset().add(rooms_flat(rs, room_npc_ids_fn()).to_multiset()).add(
            rooms_flat(rs, room_cont_ids_fn()).to_multiset(),
        ));
    } else {
        lemma_rooms_ids_decompose(rs.drop_last());
        let r = rs.last();
        let pre = rs.drop_last();
        assert(crate::entities::rooms_ids(rs) == crate::entities::rooms_ids(pre) + room_ids(r));
        assert(rooms_flat(rs, room_own_id_fn()) == rooms_flat(pre, room_own_id_fn())
            + room_own_id_fn()(r));
        assert(rooms_flat(rs, room_npc_ids_fn()) == rooms_flat(pre, room_npc_ids_fn())
            + room_npc_ids_fn()(r));
        assert(rooms_flat(rs, room_cont_ids_fn()) == rooms_flat(pre, room_cont_ids_fn())
            + room_cont_ids_fn()(r));
        vstd::seq_lib::lemma_multiset_commutative(crate::entities::rooms_ids(pre), room_ids(r));
        vstd::seq_lib::lemma_multiset_commutative(
            seq![r.id] + r.npcs.map_values(|n: NpcM| n.id),
            r.containers.map_values(|c: Container| c.id),
        );
        vstd::seq_lib::lemma_multiset_commutative(seq![r.id], r.npcs.map_values(|n: NpcM| n.id));
        assert(room_ids(r) == (seq![r.id] + r.npcs.map_values(|n: NpcM| n.id))
            + r.containers.map_values(|c: Container| c.id));
        vstd::seq_lib::lemma_multiset_commutative(rooms_flat(pre, room_own_id_fn()), seq![r.id]);
        vstd::seq_lib::lemma_multiset_commutative(
            rooms_flat(pre, room_npc_ids_fn()),
            r.npcs.map_values(|n: NpcM| n.id),
        );
        vstd::seq_lib::lemma_multiset_commutative(
            rooms_flat(pre, room_cont_ids_fn()),
            r.containers.map_values(|c: Container| c.id),
        );
        assert(room_own_id_fn()(r) == seq![r.id]);
        assert(room_npc_ids_fn()(r) == r.npcs.map_values(|n: NpcM| n.id));
        assert(room_cont_ids_fn()(r) == r.containers.map_values(|c: Container| c.id));
        assert(crate::entities::rooms_ids(rs).to_multiset() == crate::entities::rooms_ids(pre)
            .to_multiset().add(room_ids(r).to_multiset()));
        assert(room_ids(r).to_multiset() == (seq![r.id].to_multiset().add(
            r.npcs.map_values(|n: NpcM| n.id).to_multiset(),
        )).add(r.containers.map_values(|c: Container| c.id).to_multiset()));
        assert_multisets_equal!(
            crate::entities::rooms_ids(rs).to_multiset(),
            rooms_flat(rs, room_own_id_fn()).to_multiset()
                .add(rooms_flat(rs, room_npc_ids_fn()).to_multiset())
                .add(rooms_flat(rs, room_cont_ids_fn()).to_multiset())
        );
    }
}

/// Every inhabitant of the sequence belongs to the given town and building.
pub open spec fn npcs_for_building(ns: Seq<NpcM>, town_id: u32, building_id: u32) -> bool {
    forall|k: int|
        0 <= k < ns.len() ==> (#[trigger] ns[k]).town_id == town_id && ns[k].building_id
            == building_id
}

/// Back-reference consistency of a building's rooms: every room, inhabitant
/// and container carries the identifiers of its owners.
pub open spec fn rooms_wf(rs: Seq<RoomM>, town_id: u32, building_id: u32) -> bool {
    forall|j: int|
        0 <= j < rs.len() ==> {
            let r = #[trigger] rs[j];
            &&& r.town_id == town_id
            &&& r.building_id == building_id
            &&& (forall|p: int|
                0 <= p < r.npcs.len() ==> (#[trigger] r.npcs[p]).room_id == Some(r.id)
                    && r.npcs[p].town_id == town_id && r.npcs[p].building_id == building_id)
            &&& (forall|c: int|
                0 <= c < r.containers.len() ==> (#[trigger] r.containers[c]).room_id == r.id
                    && r.containers[c].town_id == town_id && r.containers[c].building_id
                    == building_id)
        }
}

/// The container count rule, over every room: an empty configured range
/// yields zero containers, a non-empty one a count inside it.
pub open spec fn rooms_containers_bounded(rs: Seq<RoomM>, cfg: GenConfig) -> bool {
    forall|j: int|
        0 <= j < rs.len() ==> {
            let r = #[trigger] rs[j];
            &&& cfg.min_containers >= cfg.max_containers ==> r.containers.len() == 0
            &&& cfg.min_containers < cfg.max_containers ==> cfg.min_containers <= r.containers.len()
                < cfg.max_containers
        }
}

/// One empty room: a fresh identifier, then its containers.
pub open spec fn spec_gen_room(cfg: GenConfig, town_id: u32, building_id: u32, st: GenState) -> Result<
    (RoomM, GenState),
    GenError,
> {
    match spec_alloc_id(st, cfg) {
        Ok((id, st1)) => match spec_gen_containers(cfg, town_id, building_id, id, st1) {
            Ok((cs, st2)) => Ok(
                (RoomM { id, town_id, building_id, npcs: Seq::empty(), containers: cs }, st2),
            ),
            Err(e) => Err(e),
        },
        Err(e) => Err(e),
    }
}

/// The remaining `k` empty rooms, appended to `acc`.
pub open spec fn spec_gen_rooms_rec(
    cfg: GenConfig,
    town_id: u32,
    building_id: u32,
    st: GenState,
    acc: Seq<RoomM>,
    k: nat,
) -> Result<(Seq<RoomM>, GenState), GenError>
    decreases k,
{
    if k == 0 {
        Ok((acc, st))
    } else {
        match spec_gen_room(cfg, town_id, building_id, st) {
            Ok((room, st1)) => spec_gen_rooms_rec(
                cfg,
                town_id,
                building_id,
                st1,
                acc.push(room),
                (k - 1) as nat,
            ),
            Err(e) => Err(e),
        }
    }
}

/// The rooms of one building: a drawn count of empty rooms, then the
/// building's inhabitants shuffled and placed into uniformly chosen rooms.
pub open spec fn spec_gen_rooms(
    cfg: GenConfig,
    town_id: u32,
    building_id: u32,
    npcs: Seq<NpcM>,
    st: GenState,
) -> Result<(Seq<RoomM>, GenState), GenError> {
    let (r2, n) = spec_draw_count(st.rng, cfg.min_rooms, cfg.max_rooms);
    match spec_gen_rooms_rec(
        cfg,
        town_id,
        building_id,
        GenState { rng: r2, ..st },
        Seq::empty(),
        n as nat,
    ) {
        Ok((rooms, st1)) => {
            let (npcs2, r3) = spec_shuffle(st1.rng, npcs);
            let (rooms2, r4) = spec_assign_npcs(r3, rooms, npcs2);
            Ok((rooms2, GenState { rng: r4, ..st1 }))
        },
        Err(e) => Err(e),
    }
}

/// Generate the rooms of one building and place the given inhabitants in
/// them.  Room placement is many-to-one: a room may receive zero or many
/// inhabitants; with zero rooms the inhabitants are dropped.
#[verifier::loop_isolation(false)]
pub fn generate_rooms(
    settings: &GenConfig,
    rng: &mut rand::rngs::StdRng,
    id_tracker: &mut IdTracker,
    town_id: u32,
    building_id: u32,
    npcs: Vec<Npc>,
) -> (r: Result<Vec<Room>, GenError>)
    requires
        settings.id_range_ok(),
    ensures
        old(id_tracker).issued().subset_of(final(id_tracker).issued()),
        match (
            spec_gen_rooms(
                *settings,
                town_id,
                building_id,
                npcs.deep_view(),
                st_of(*old(rng), *old(id_tracker)),
            ),
            r,
        ) {
            (Ok((rs, st2)), Ok(v)) => v.deep_view() == rs && st_of(*final(rng), *final(id_tracker))
                == st2,
            (Err(e), Err(e2)) => e2 == e,
            _ => false,
        },
        (match r {
            Ok(v) => {
                let rd = v.deep_view();
                let npc_ids = npcs.deep_view().map_values(|n: NpcM| n.id);
                &&& ids_in(npc_ids, old(id_tracker).issued()) ==> ids_in(
                    crate::entities::rooms_ids(rd),
                    final(id_tracker).issued(),
                )
                &&& ids_fresh(
                    rooms_flat(rd, room_own_id_fn()),
                    old(id_tracker).issued(),
                )
                &&& ids_fresh(
                    rooms_flat(rd, room_cont_ids_fn()),
                    old(id_tracker).issued(),
                )
                &&& v@.len() > 0 ==> rooms_flat(rd, room_npc_ids_fn()).to_multiset()
                    == npc_ids.to_multiset()
                &&& v@.len() == 0 ==> rd =~= Seq::<RoomM>::empty()
                &&& forall|x: u32|
                    crate::entities::rooms_ids(rd).contains(x) ==> rooms_flat(
                        rd,
                        room_own_id_fn(),
                    ).contains(x) || rooms_flat(rd, room_cont_ids_fn()).contains(x)
                        || npc_ids.contains(x)
                &&& npc_ids.no_duplicates() && ids_in(npc_ids, old(id_tracker).issued())
                    ==> crate::entities::rooms_ids(rd).no_duplicates()
                &&& npcs_for_building(npcs.deep_view(), town_id, building_id) ==> rooms_wf(
                    rd,
                    town_id,
                    building_id,
                )
                &&& rooms_containers_bounded(rd, *settings)
                &&& v@.len() > 0 ==> rooms_npc_total(rd) == npcs@.len()
                &&& v@.len() == 0 ==> rooms_npc_total(rd) == 0
                &&& settings.min_rooms >= settings.max_rooms ==> v@.len() == 0
                &&& settings.min_rooms < settings.max_rooms ==> settings.min_rooms <= v@.len()
                    < settings.max_rooms
            },
            Err(_) => true,
        }),
{
    let ghost st_orig = st_of(*rng, *id_tracker);
    let ghost old_issued = id_tracker.issued();
    let n = crate::rng::draw_count(rng, settings.min_rooms, settings.max_rooms);
    let mut rooms: Vec<Room> = Vec::new();
    let mut i: u32 = 0;
    proof {
        assert(rooms.deep_view() =~= Seq::<RoomM>::empty());
        assert(crate::entities::rooms_ids(rooms.deep_view()) =~= Seq::<u32>::empty());
    }
    while i < n
        invariant
            settings.id_range_ok(),
            i <= n,
            rooms@.len() == i,
            spec_gen_rooms(*settings, town_id, building_id, npcs.deep_view(), st_orig) == (match
                spec_gen_rooms_rec(
                *settings,
                town_id,
                building_id,
                st_of(*rng, *id_tracker),
                rooms.deep_view(),
                (n - i) as nat,
            ) {
                Ok((rs, st1)) => {
                    let (npcs2, r3) = spec_shuffle(st1.rng, npcs.deep_view());
                    let (rooms2, r4) = spec_assign_npcs(r3, rs, npcs2);
                    Ok::<(Seq<RoomM>, GenState), GenError>((rooms2, GenState { rng: r4, ..st1 }))
                },
                Err(e) => Err(e),
            }),
            old_issued == old(id_tracker).issued(),
            old_issued.subset_of(id_tracker.issued()),
            crate::entities::rooms_ids(rooms.deep_view()).no_duplicates(),
            ids_in(crate::entities::rooms_ids(rooms.deep_view()), id_tracker.issued()),
            ids_fresh(crate::entities::rooms_ids(rooms.deep_view()), old_issued),
            forall|j: int|
                0 <= j < rooms.deep_view().len() ==> (#[trigger] rooms.deep_view()[j]).npcs
                    == Seq::<NpcM>::empty(),
            rooms_wf(rooms.deep_view(), town_id, building_id),
            rooms_containers_bounded(rooms.deep_view(), *settings),
        decreases n - i,
    {
        let ghost rd_before = rooms.deep_view();
        let ghost st_entry = st_of(*rng, *id_tracker);
        let ghost issued_entry = id_tracker.issued();
        let id = match id_tracker.get_new_id(settings) {
            Ok(id) => id,
            Err(e) => {
                return Err(e);
            },
        };
        let ghost issued_after_id = id_tracker.issued();
        let containers = match generate_containers(
            settings,
            rng,
            id_tracker,
            town_id,
            building_id,
            id,
        ) {
            Ok(cs) => cs,
            Err(e) => {
                return Err(e);
            },
        };
        let ghost cont_ids = containers@.map_values(|c: Container| c.id);
        let room = Room { id, town_id, building_id, npcs: Vec::new(), containers };
        let ghost room_m = room.deep_view();
        rooms.push(room);
        i = i + 1;
        proof {
            assert(room_m.npcs =~= Seq::<NpcM>::empty());
            assert(room_m.npcs.map_values(|nn: NpcM| nn.id) =~= Seq::<u32>::empty());
            assert(rooms.deep_view() =~= rd_before.push(room_m));
            assert(spec_gen_room(*settings, town_id, building_id, st_entry)
                == Ok::<(RoomM, GenState), GenError>((room_m, st_of(*rng, *id_tracker))));
            // the new room's own identifier chain is duplicate-free
            assert(room_ids(room_m) =~= seq![id] + cont_ids);
            lemma_ids_concat_no_dup(seq![id], cont_ids, issued_after_id);
            assert(ids_fresh(seq![id], issued_entry));
            lemma_ids_concat_no_dup(
                crate::entities::rooms_ids(rd_before),
                room_ids(room_m),
                issued_entry,
            );
            assert(rooms.deep_view().drop_last() =~= rd_before);
            assert(rooms.deep_view().last() == room_m);
            assert(crate::entities::rooms_ids(rooms.deep_view()) == crate::entities::rooms_ids(
                rd_before,
            ) + room_ids(room_m));
        }
    }
    let ghost rd1 = rooms.deep_view();
    let ghost st1 = st_of(*rng, *id_tracker);
    let ghost npcs_deep = npcs.deep_view();
    let ghost npc_ids = npcs.deep_view().map_values(|nn: NpcM| nn.id);
    let shuffled = shuffle_npcs(rng, npcs);
    let ghost sh_deep = shuffled.deep_view();
    let ghost sh_ids = sh_deep.map_values(|nn: NpcM| nn.id);
    let ghost st_assign = stdrng_state(*rng);
    let ghost assign_target = spec_assign_npcs(st_assign, rd1, sh_deep);
    proof {
        // the shuffle is a permutation, so per-inhabitant facts carry over
        assert(npcs_for_building(npcs_deep, town_id, building_id) ==> npcs_for_building(
            sh_deep,
            town_id,
            building_id,
        )) by {
            if npcs_for_building(npcs_deep, town_id, building_id) {
                sh_deep.to_multiset_ensures();
                npcs_deep.to_multiset_ensures();
                assert forall|kk: int|
                    0 <= kk < sh_deep.len() implies (#[trigger] sh_deep[kk]).town_id == town_id
                    && sh_deep[kk].building_id == building_id by {
                    let e = sh_deep[kk];
                    assert(sh_deep.contains(e));
                    assert(npcs_deep.to_multiset().count(e) > 0);
                    assert(npcs_deep.contains(e));
                    let ii = choose|ii: int| 0 <= ii < npcs_deep.len() && npcs_deep[ii] == e;
                    assert(npcs_deep[ii].town_id == town_id);
                }
            }
        }
    }
    if rooms.len() > 0 && shuffled.len() > 0 {
        let mut k: usize = 0;
        proof {
            assert(sh_deep.skip(0) =~= sh_deep);
            assert(rooms_flat(rd1, room_npc_ids_fn()) =~= Seq::<u32>::empty()) by {
                assert(forall|j: int|
                    0 <= j < rd1.len() ==> room_npc_ids_fn()(#[trigger] rd1[j]) =~= Seq::<
                    u32,
                >::empty());
                lemma_rooms_flat_all_empty(rd1, room_npc_ids_fn());
            }
            assert(sh_ids.take(0) =~= Seq::<u32>::empty());
            lemma_rooms_npc_total_zero(rd1);
        }
        while k < shuffled.len()
            invariant
                0 < rooms@.len() == rd1.len(),
                k <= shuffled@.len(),
                sh_deep == shuffled.deep_view(),
                sh_ids == sh_deep.map_values(|nn: NpcM| nn.id),
                assign_target == spec_assign_npcs(
                    stdrng_state(*rng),
                    rooms.deep_view(),
                    sh_deep.skip(k as int),
                ),
                rooms_flat(rooms.deep_view(), room_own_id_fn()) == rooms_flat(
                    rd1,
                    room_own_id_fn(),
                ),
                rooms_flat(rooms.deep_view(), room_cont_ids_fn()) == rooms_flat(
                    rd1,
                    room_cont_ids_fn(),
                ),
                rooms_flat(rooms.deep_view(), room_npc_ids_fn()).to_multiset() == sh_ids.take(
                    k as int,
                ).to_multiset(),
                rooms_npc_total(rooms.deep_view()) == k,
                forall|j: int|
                    0 <= j < rd1.len() ==> (#[trigger] rooms.deep_view()[j]).id == rd1[j].id
                        && rooms.deep_view()[j].town_id == rd1[j].town_id
                        && rooms.deep_view()[j].building_id == rd1[j].building_id
                        && rooms.deep_view()[j].containers == rd1[j].containers,
                npcs_for_building(sh_deep, town_id, building_id) ==> rooms_wf(
                    rooms.deep_view(),
                    town_id,
                    building_id,
                ),
                rooms_containers_bounded(rooms.deep_view(), *settings),
            decreases shuffled@.len() - k,
        {
            let ghost rd_before = rooms.deep_view();
            let j = stdrng_gen_index(rng, 0, rooms.len());
            let mut npc = shuffled[k].clone();
            let room_id_val = rooms[j].id;
            npc.room_id = Some(room_id_val);
            let ghost npc_m = npc.deep_view();
            let mut room = rooms[j].clone();
            room.npcs.push(npc);
            let ghost room_m = room.deep_view();
            rooms[j] = room;
            k = k + 1;
            proof {
                assert(room_m.npcs =~= rd_before[j as int].npcs.push(npc_m));
                assert(rooms.deep_view() =~= rd_before.update(j as int, room_m));
                assert(npc_m == NpcM { room_id: Some(rd_before[j as int].id), ..sh_deep[k - 1] });
                assert(sh_deep.skip(k - 1).drop_first() =~= sh_deep.skip(k as int));
                assert(sh_deep.skip(k - 1)[0] == sh_deep[k - 1]);
                lemma_rooms_flat_update(rd_before, j as int, room_m, room_own_id_fn());
                lemma_rooms_flat_update(rd_before, j as int, room_m, room_cont_ids_fn());
                assert(room_npc_ids_fn()(room_m) == room_npc_ids_fn()(rd_before[j as int]).push(
                    npc_m.id,
                )) by {
                    assert(room_m.npcs.map_values(|nn: NpcM| nn.id) =~= rd_before[
                        j as int
                    ].npcs.map_values(|nn: NpcM| nn.id).push(npc_m.id));
                }
                lemma_rooms_flat_update_push(rd_before, j as int, room_m, npc_m.id, room_npc_ids_fn());
                assert(sh_ids.take(k as int) =~= sh_ids.take(k - 1).push(sh_ids[k - 1]));
                sh_ids.take(k - 1).to_multiset_ensures();
                assert(sh_ids[k - 1] == npc_m.id);
                lemma_rooms_npc_total_push(rd_before, j as int, room_m);
            }
        }
        proof {
            assert(sh_deep.skip(shuffled@.len() as int) =~= Seq::<NpcM>::empty());
            assert(sh_ids.take(shuffled@.len() as int) =~= sh_ids);
        }
    }
    proof {
        if rooms@.len() == 0 {
            assert(rooms.deep_view() =~= Seq::<RoomM>::empty());
            assert(crate::entities::rooms_ids(rooms.deep_view()) =~= Seq::<u32>::empty());
            lemma_rooms_npc_total_zero(rooms.deep_view());
        } else if shuffled@.len() == 0 {
            assert(sh_deep =~= Seq::<NpcM>::empty());
            lemma_rooms_npc_total_zero(rooms.deep_view());
            assert(rooms_flat(rooms.deep_view(), room_npc_ids_fn()) =~= Seq::<u32>::empty()) by {
                assert(forall|j: int|
                    0 <= j < rooms.deep_view().len() ==> room_npc_ids_fn()(
                        #[trigger] rooms.deep_view()[j],
                    ) =~= Seq::<u32>::empty());
                lemma_rooms_flat_all_empty(rooms.deep_view(), room_npc_ids_fn());
            }
            assert(npc_ids =~= Seq::<u32>::empty());
        }
    }
    let ghost rd_final = rooms.deep_view();
    proof {
        if rooms@.len() > 0 {
            lemma_rooms_final_ids(rd1, rd_final, npc_ids, old_issued, id_tracker.issued());
        }
    }
    Ok(rooms)
}

/// Transfers the identifier bookkeeping of a building's rooms across the
/// inhabitant placement: the rooms' own and container identifiers are
/// untouched, the inhabitants' identifiers are exactly the given ones, and
/// the full tree-order identifier sequence stays duplicate-free when the
/// inhabitants' identifiers (all issued earlier) are themselves distinct.
pub proof fn lemma_rooms_final_ids(
    rd1: Seq<RoomM>,
    rd_final: Seq<RoomM>,
    npc_ids: Seq<u32>,
    old_issued: Set<u32>,
    new_issued: Set<u32>,
)
    requires
        crate::entities::rooms_ids(rd1).no_duplicates(),
        ids_fresh(crate::entities::rooms_ids(rd1), old_issued),
        ids_in(crate::entities::rooms_ids(rd1), new_issued),
        old_issued.subset_of(new_issued),
        rooms_flat(rd_final, room_own_id_fn()) == rooms_flat(rd1, room_own_id_fn()),
        rooms_flat(rd_final, room_cont_ids_fn()) == rooms_flat(rd1, room_cont_ids_fn()),
        rooms_flat(rd_final, room_npc_ids_fn()).to_multiset() == npc_ids.to_multiset(),
        forall|j: int| 0 <= j < rd1.len() ==> (#[trigger] rd1[j]).npcs == Seq::<NpcM>::empty(),
    ensures
        ids_fresh(rooms_flat(rd_final, room_own_id_fn()), old_issued),
        ids_fresh(rooms_flat(rd_final, room_cont_ids_fn()), old_issued),
        ids_in(npc_ids, old_issued) ==> ids_in(
            crate::entities::rooms_ids(rd_final),
            new_issued,
        ),
        npc_ids.no_duplicates() && ids_in(npc_ids, old_issued)
            ==> crate::entities::rooms_ids(rd_final).no_duplicates(),
        forall|x: u32|
            crate::entities::rooms_ids(rd_final).contains(x) ==> rooms_flat(
                rd_final,
                room_own_id_fn(),
            ).contains(x) || rooms_flat(rd_final, room_cont_ids_fn()).contains(x)
                || npc_ids.contains(x),
{
    broadcast use vstd::multiset::group_multiset_axioms;

    let own = rooms_flat(rd1, room_own_id_fn());
    let cont = rooms_flat(rd1, room_cont_ids_fn());
    let ids1 = crate::entities::rooms_ids(rd1);
    let idsf = crate::entities::rooms_ids(rd_final);
    lemma_rooms_ids_decompose(rd1);
    lemma_rooms_ids_decompose(rd_final);
    assert(rooms_flat(rd1, room_npc_ids_fn()) == Seq::<u32>::empty()) by {
        assert(forall|j: int|
            0 <= j < rd1.len() ==> room_npc_ids_fn()(#[trigger] rd1[j]) =~= Seq::<u32>::empty());
        lemma_rooms_flat_all_empty(rd1, room_npc_ids_fn());
    }
    Seq::<u32>::empty().to_multiset_ensures();
    vstd::multiset::lemma_multiset_empty_len(Seq::<u32>::empty().to_multiset());
    assert(Seq::<u32>::empty().to_multiset() =~= vstd::multiset::Multiset::<u32>::empty());
    // counts per element: tree order of the final rooms = the phase-one
    // identifiers plus the inhabitants' identifiers
    assert(forall|x: u32| #[trigger]
        idsf.to_multiset().count(x) == ids1.to_multiset().count(x) + npc_ids.to_multiset().count(
            x,
        ));
    ids1.to_multiset_ensures();
    idsf.to_multiset_ensures();
    npc_ids.to_multiset_ensures();
    own.to_multiset_ensures();
    cont.to_multiset_ensures();
    ids1.lemma_multiset_has_no_duplicates();
    // the rooms' own and container identifiers occur among the phase-one ids
    assert forall|k: int| 0 <= k < own.len() implies !old_issued.contains(#[trigger] own[k]) by {
        let x = own[k];
        assert(own.contains(x));
        assert(own.to_multiset().count(x) > 0);
        assert(ids1.to_multiset().count(x) > 0);
        assert(ids1.contains(x));
        let ii = choose|ii: int| 0 <= ii < ids1.len() && ids1[ii] == x;
    }
    assert forall|k: int| 0 <= k < cont.len() implies !old_issued.contains(#[trigger] cont[k]) by {
        let x = cont[k];
        assert(cont.contains(x));
        assert(cont.to_multiset().count(x) > 0);
        assert(ids1.to_multiset().count(x) > 0);
        assert(ids1.contains(x));
        let ii = choose|ii: int| 0 <= ii < ids1.len() && ids1[ii] == x;
    }
    if ids_in(npc_ids, old_issued) {
        assert forall|k: int| 0 <= k < idsf.len() implies new_issued.contains(
            #[trigger] idsf[k],
        ) by {
            let x = idsf[k];
            assert(idsf.contains(x));
            assert(idsf.to_multiset().count(x) > 0);
            if ids1.to_multiset().count(x) > 0 {
                assert(ids1.contains(x));
                let ii = choose|ii: int| 0 <= ii < ids1.len() && ids1[ii] == x;
            } else {
                assert(npc_ids.to_multiset().count(x) > 0);
                assert(npc_ids.contains(x));
                let ii = choose|ii: int| 0 <= ii < npc_ids.len() && npc_ids[ii] == x;
            }
        }
    }
    assert forall|x: u32| idsf.contains(x) implies own.contains(x) || cont.contains(x)
        || npc_ids.contains(x) by {
        assert(idsf.to_multiset().count(x) > 0);
        if own.to_multiset().count(x) > 0 {
            assert(own.contains(x));
        } else if cont.to_multiset().count(x) > 0 {
            assert(cont.contains(x));
        } else {
            assert(npc_ids.to_multiset().count(x) > 0);
            assert(npc_ids.contains(x));
        }
    }
    if ids_in(npc_ids, old_issued) {
        if npc_ids.no_duplicates() {
            npc_ids.lemma_multiset_has_no_duplicates();
            assert forall|x: u32|
                idsf.to_multiset().contains(x) implies idsf.to_multiset().count(x) == 1 by {
                if ids1.to_multiset().count(x) > 0 && npc_ids.to_multiset().count(x) > 0 {
                    assert(ids1.contains(x));
                    let ii = choose|ii: int| 0 <= ii < ids1.len() && ids1[ii] == x;
                    assert(!old_issued.contains(x));
                    assert(npc_ids.contains(x));
                    let jj = choose|jj: int| 0 <= jj < npc_ids.len() && npc_ids[jj] == x;
                    assert(old_issued.contains(x));
                }
            }
            idsf.lemma_multiset_has_no_duplicates_conv();
        }
    }
}

/// Whether `g` is the ceiling of the square root of `n`.
pub open spec fn is_ceil_sqrt(n: u32, g: u32) -> bool {
    &&& g * g >= n
    &&& g > 0 ==> (g - 1) * (g - 1) < n
    &&& g == 0 ==> n == 0
}

/// The ceiling of the square root of `n`.
pub open spec fn spec_ceil_sqrt(n: u32) -> u32 {
    choose|g: u32| is_ceil_sqrt(n, g)
}

/// The ceiling of a square root is unique.
pub proof fn lemma_ceil_sqrt_unique(n: u32, a: u32, b: u32)
    requires
        is_ceil_sqrt(n, a),
        is_ceil_sqrt(n, b),
    ensures
        a == b,
{
    assert(a == b) by (nonlinear_arith)
        requires
            a * a >= n,
            b * b >= n,
            a > 0 ==> (a - 1) * (a - 1) < n,
            b > 0 ==> (b - 1) * (b - 1) < n,
            a == 0 ==> n == 0,
            b == 0 ==> n == 0,
            a >= 0,
            b >= 0,
    ;
}

/// Compute the ceiling of the square root of `n`: the side of the smallest
/// square grid with at least `n` cells.
pub fn ceil_sqrt(n: u32) -> (g: u32)
    ensures
        g == spec_ceil_sqrt(n),
        is_ceil_sqrt(n, g),
        n > 0 ==> g >= 1,
        g <= 65536,
{
    let mut g: u32 = 0;
    while (g as u64) * (g as u64) < (n as u64)
        invariant
            g <= 65536,
            (g as int) * (g as int) <= 0x1_0000_0000,
            g > 0 ==> (g - 1) * (g - 1) < n,
        decreases 65537 - g,
    {
        proof {
            assert((g as int) < 65536) by (nonlinear_arith)
                requires
                    (g as int) * (g as int) < (n as int),
                    (n as int) < 0x1_0000_0000,
                    (g as int) >= 0,
            ;
            assert(((g + 1) as int) * ((g + 1) as int) <= 0x1_0000_0000) by (nonlinear_arith)
                requires
                    (g as int) < 65536,
                    (g as int) >= 0,
            ;
        }
        g = g + 1;
    }
    proof {
        assert(is_ceil_sqrt(n, g));
        assert(exists|x: u32| is_ceil_sqrt(n, x));
        lemma_ceil_sqrt_unique(n, g, spec_ceil_sqrt(n));
    }
    g
}

/// Back-reference consistency of a town's buildings.
pub open spec fn buildings_wf(bs: Seq<crate::entities::BuildingM>, town_id: u32) -> bool {
    forall|b: int|
        0 <= b < bs.len() ==> (#[trigger] bs[b]).town_id == town_id && rooms_wf(
            bs[b].rooms,
            town_id,
            bs[b].id,
        )
}

/// The container count rule over every room of every building.
pub open spec fn buildings_containers_bounded(
    bs: Seq<crate::entities::BuildingM>,
    cfg: GenConfig,
) -> bool {
    forall|b: int| 0 <= b < bs.len() ==> rooms_containers_bounded((#[trigger] bs[b]).rooms, cfg)
}

/// The inhabitant count rule, per building category: one inhabitant for a
/// shop, two for a residence, a drawn count within `[min_npcs, max_npcs)`
/// for a tavern or temple.
pub open spec fn buildings_npc_rule(bs: Seq<crate::entities::BuildingM>, cfg: GenConfig) -> bool {
    forall|b: int|
        0 <= b < bs.len() ==> {
            let bb = #[trigger] bs[b];
            &&& bb.building_type is Shop ==> rooms_npc_total(bb.rooms) == 1
            &&& bb.building_type is Residence ==> rooms_npc_total(bb.rooms) == 2
            &&& (bb.building_type is Tavern || bb.building_type is Temple) ==> {
                &&& cfg.min_npcs < cfg.max_npcs ==> cfg.min_npcs <= rooms_npc_total(bb.rooms)
                    < cfg.max_npcs
                &&& cfg.min_npcs >= cfg.max_npcs ==> rooms_npc_total(bb.rooms) == 0
            }
        }
}

/// One building: a fresh identifier, a uniform category, a synthesized name,
/// its inhabitants, and its rooms with the inhabitants placed.
pub open spec fn spec_gen_building(
    cfg: GenConfig,
    lists: crate::config::WordListsM,
    town_id: u32,
    pos: (u32, u32),
    st: GenState,
) -> Result<(crate::entities::BuildingM, GenState), GenError> {
    match spec_alloc_id(st, cfg) {
        Ok((id, st1)) => {
            let (r2, btype) = spec_choose_building_type(st1.rng);
            let (name, r3) = crate::namegen::spec_building_name(
                r2,
                btype,
                lists.surnames,
                lists.shops,
                lists.taverns,
                lists.temples,
            );
            match spec_gen_npcs(cfg, lists, town_id, id, name, btype, GenState { rng: r3, ..st1 }) {
                Ok((ns, st2)) => match spec_gen_rooms(cfg, town_id, id, ns, st2) {
                    Ok((rs, st3)) => Ok(
                        (
                            crate::entities::BuildingM {
                                id,
                                name,
                                building_type: btype,
                                town_id,
                                coords: pos,
                                rooms: rs,
                            },
                            st3,
                        ),
                    ),
                    Err(e) => Err(e),
                },
                Err(e) => Err(e),
            }
        },
        Err(e) => Err(e),
    }
}

/// The remaining `k` buildings, appended to `acc`, walking the grid cells in
/// row-major order.
pub open spec fn spec_gen_buildings_rec(
    cfg: GenConfig,
    lists: crate::config::WordListsM,
    town_id: u32,
    grid: u32,
    pos: (u32, u32),
    st: GenState,
    acc: Seq<crate::entities::BuildingM>,
    k: nat,
) -> Result<(Seq<crate::entities::BuildingM>, GenState), GenError>
    decreases k,
{
    if k == 0 {
        Ok((acc, st))
    } else {
        match spec_gen_building(cfg, lists, town_id, pos, st) {
            Ok((b, st1)) => {
                let pos2 = if pos.0 + 1 >= grid {
                    (0u32, (pos.1 + 1) as u32)
                } else {
                    ((pos.0 + 1) as u32, pos.1)
                };
                spec_gen_buildings_rec(cfg, lists, town_id, grid, pos2, st1, acc.push(b), (k - 1) as nat)
            },
            Err(e) => Err(e),
        }
    }
}

/// All buildings of one town, on a square grid sized to the ceiling of the
/// square root of the building count.
pub open spec fn spec_gen_buildings(
    cfg: GenConfig,
    lists: crate::config::WordListsM,
    town_id: u32,
    n: u32,
    st: GenState,
) -> Result<(Seq<crate::entities::BuildingM>, GenState), GenError> {
    spec_gen_buildings_rec(cfg, lists, town_id, spec_ceil_sqrt(n), (0u32, 0u32), st, Seq::empty(), n as nat)
}

/// Generate the buildings of one town: `number_of_buildings` buildings, each
/// with a category, a name, inhabitants and rooms, placed on consecutive
/// cells of a square grid.
#[verifier::loop_isolation(false)]
pub fn generate_buildings(
    settings: &GenConfig,
    rng: &mut rand::rngs::StdRng,
    id_tracker: &mut IdTracker,
    town_id: u32,
    number_of_buildings: u32,
    lists: &WordLists,
) -> (r: Result<Vec<Building>, GenError>)
    requires
        settings.id_range_ok(),
    ensures
        old(id_tracker).issued().subset_of(final(id_tracker).issued()),
        match (
            spec_gen_buildings(
                *settings,
                lists@,
                town_id,
                number_of_buildings,
                st_of(*old(rng), *old(id_tracker)),
            ),
            r,
        ) {
            (Ok((bs, st2)), Ok(v)) => v.deep_view() == bs && st_of(
                *final(rng),
                *final(id_tracker),
            ) == st2,
            (Err(e), Err(e2)) => e2 == e,
            _ => false,
        },
        (match r {
            Ok(v) => {
                let bd = v.deep_view();
                &&& v@.len() == number_of_buildings
                &&& crate::entities::buildings_ids(bd).no_duplicates()
                &&& ids_in(crate::entities::buildings_ids(bd), final(id_tracker).issued())
                &&& ids_fresh(crate::entities::buildings_ids(bd), old(id_tracker).issued())
                &&& buildings_wf(bd, town_id)
                &&& buildings_containers_bounded(bd, *settings)
                &&& settings.min_rooms >= 1 && settings.min_rooms < settings.max_rooms
                    ==> buildings_npc_rule(bd, *settings)
            },
            Err(_) => true,
        }),
{
    let grid = ceil_sqrt(number_of_buildings);
    let mut px: u32 = 0;
    let mut py: u32 = 0;
    let mut out: Vec<Building> = Vec::new();
    let mut i: u32 = 0;
    proof {
        assert(out.deep_view() =~= Seq::<crate::entities::BuildingM>::empty());
        assert(crate::entities::buildings_ids(out.deep_view()) =~= Seq::<u32>::empty());
    }
    while i < number_of_buildings
        invariant
            i <= number_of_buildings,
            out@.len() == i,
            number_of_buildings > 0 ==> grid >= 1,
            grid <= 65536,
            py <= i,
            i < number_of_buildings ==> px < grid,
            spec_gen_buildings(
                *settings,
                lists@,
                town_id,
                number_of_buildings,
                st_of(*old(rng), *old(id_tracker)),
            ) == spec_gen_buildings_rec(
                *settings,
                lists@,
                town_id,
                grid,
                (px, py),
                st_of(*rng, *id_tracker),
                out.deep_view(),
                (number_of_buildings - i) as nat,
            ),
            old(id_tracker).issued().subset_of(id_tracker.issued()),
            crate::entities::buildings_ids(out.deep_view()).no_duplicates(),
            ids_in(crate::entities::buildings_ids(out.deep_view()), id_tracker.issued()),
            ids_fresh(crate::entities::buildings_ids(out.deep_view()), old(id_tracker).issued()),
            buildings_wf(out.deep_view(), town_id),
            buildings_containers_bounded(out.deep_view(), *settings),
            settings.min_rooms >= 1 && settings.min_rooms < settings.max_rooms
                ==> buildings_npc_rule(out.deep_view(), *settings),
        decreases number_of_buildings - i,
    {
        let ghost bd_before = out.deep_view();
        let ghost issued_entry = id_tracker.issued();
        let building_id = match id_tracker.get_new_id(settings) {
            Ok(id) => id,
            Err(e) => {
                return Err(e);
            },
        };
        let ghost issued_after_bid = id_tracker.issued();
        let building_type = choose_building_type(rng);
        let name = crate::namegen::generate_building_name(
            rng,
            &building_type,
            &lists.surnames,
            &lists.shops,
            &lists.taverns,
            &lists.temples,
        );
        let npcs = match generate_npcs(
            settings,
            rng,
            id_tracker,
            town_id,
            building_id,
            name.as_str(),
            &building_type,
            lists,
        ) {
            Ok(ns) => ns,
            Err(e) => {
                return Err(e);
            },
        };
        let ghost npcs_deep = npcs.deep_view();
        let ghost npc_ids = npcs_deep.map_values(|n: NpcM| n.id);
        let ghost npc_count = npcs@.len();
        let ghost issued_after_npcs = id_tracker.issued();
        let rooms = match generate_rooms(settings, rng, id_tracker, town_id, building_id, npcs) {
            Ok(rs) => rs,
            Err(e) => {
                return Err(e);
            },
        };
        let ghost roomsd = rooms.deep_view();
        let building = Building {
            id: building_id,
            name,
            building_type,
            town_id,
            coords: (px, py),
            rooms,
        };
        let ghost bld_m = building.deep_view();
        out.push(building);
        i = i + 1;
        proof {
            assert(out.deep_view() =~= bd_before.push(bld_m));
            assert(out.deep_view().drop_last() =~= bd_before);
            assert(out.deep_view().last() == bld_m);
            assert(bld_m.rooms == roomsd);
            // the new building's identifier chain is duplicate-free and fresh
            assert(crate::entities::building_ids(bld_m) == seq![building_id]
                + crate::entities::rooms_ids(roomsd));
            assert forall|x: u32|
                crate::entities::rooms_ids(roomsd).contains(x) implies !issued_after_bid.contains(
                x,
            ) by {
                if rooms_flat(roomsd, room_own_id_fn()).contains(x) {
                    let kk = choose|kk: int|
                        0 <= kk < rooms_flat(roomsd, room_own_id_fn()).len() && rooms_flat(
                            roomsd,
                            room_own_id_fn(),
                        )[kk] == x;
                    assert(!issued_after_npcs.contains(x));
                } else if rooms_flat(roomsd, room_cont_ids_fn()).contains(x) {
                    let kk = choose|kk: int|
                        0 <= kk < rooms_flat(roomsd, room_cont_ids_fn()).len() && rooms_flat(
                            roomsd,
                            room_cont_ids_fn(),
                        )[kk] == x;
                    assert(!issued_after_npcs.contains(x));
                } else {
                    assert(npc_ids.contains(x));
                    let kk = choose|kk: int| 0 <= kk < npc_ids.len() && npc_ids[kk] == x;
                }
            }
            assert(ids_fresh(crate::entities::rooms_ids(roomsd), issued_after_bid));
            lemma_ids_concat_no_dup(
                seq![building_id],
                crate::entities::rooms_ids(roomsd),
                issued_after_bid,
            );
            assert(crate::entities::building_ids(bld_m).no_duplicates());
            assert forall|k: int|
                0 <= k < crate::entities::building_ids(bld_m).len() implies !issued_entry.contains(
                #[trigger] crate::entities::building_ids(bld_m)[k],
            ) by {
                let x = crate::entities::building_ids(bld_m)[k];
                if k > 0 {
                    assert(crate::entities::rooms_ids(roomsd).contains(x));
                }
            }
            lemma_ids_concat_no_dup(
                crate::entities::buildings_ids(bd_before),
                crate::entities::building_ids(bld_m),
                issued_entry,
            );
            assert(crate::entities::buildings_ids(out.deep_view())
                == crate::entities::buildings_ids(bd_before) + crate::entities::building_ids(
                bld_m,
            ));
            // identifiers of the new building are all recorded as issued
            assert forall|k: int|
                0 <= k < crate::entities::building_ids(bld_m).len() implies id_tracker.issued()
                    .contains(#[trigger] crate::entities::building_ids(bld_m)[k]) by {
                let x = crate::entities::building_ids(bld_m)[k];
                if k > 0 {
                    assert(crate::entities::rooms_ids(roomsd).contains(x));
                    assert(ids_in(crate::entities::rooms_ids(roomsd), id_tracker.issued()));
                }
            }
        }
        // advance to the next grid cell in row-major order
        if px + 1 >= grid {
            px = 0;
            py = py + 1;
        } else {
            px = px + 1;
        }
    }
    Ok(out)
}

/// Back-reference and structural consistency of a generated town list.
pub open spec fn towns_wf(ts: Seq<crate::entities::TownM>) -> bool {
    forall|t: int|
        0 <= t < ts.len() ==> {
            let tt = #[trigger] ts[t];
            &&& buildings_wf(tt.buildings, tt.id)
            &&& tt.coords == (0u32, 0u32)
            &&& tt.number_of_buildings == tt.buildings.len()
        }
}

/// The container count rule over every town.
pub open spec fn towns_containers_bounded(ts: Seq<crate::entities::TownM>, cfg: GenConfig) -> bool {
    forall|t: int|
        0 <= t < ts.len() ==> buildings_containers_bounded((#[trigger] ts[t]).buildings, cfg)
}

/// The inhabitant count rule over every town.
pub open spec fn towns_npc_rule(ts: Seq<crate::entities::TownM>, cfg: GenConfig) -> bool {
    forall|t: int| 0 <= t < ts.len() ==> buildings_npc_rule((#[trigger] ts[t]).buildings, cfg)
}

/// One town: a fresh identifier, a drawn building count, the buildings, and
/// a synthesized town name.
pub open spec fn spec_gen_town(
    cfg: GenConfig,
    lists: crate::config::WordListsM,
    st: GenState,
) -> Result<(crate::entities::TownM, GenState), GenError> {
    match spec_alloc_id(st, cfg) {
        Ok((town_id, st1)) => {
            let (r2, nb) = spec_draw_count(st1.rng, cfg.min_buildings, cfg.max_buildings);
            match spec_gen_buildings(cfg, lists, town_id, nb, GenState { rng: r2, ..st1 }) {
                Ok((bs, st2)) => {
                    let (name, r3) = crate::namegen::spec_town_name(
                        st2.rng,
                        lists.town_prefixes,
                        lists.town_roots,
                        lists.town_suffixes,
                    );
                    Ok(
                        (
                            crate::entities::TownM {
                                id: town_id,
                                name,
                                coords: (0u32, 0u32),
                                number_of_buildings: nb,
                                buildings: bs,
                            },
                            GenState { rng: r3, ..st2 },
                        ),
                    )
                },
                Err(e) => Err(e),
            }
        },
        Err(e) => Err(e),
    }
}

/// The remaining `k` towns, appended to `acc`.
pub open spec fn spec_gen_towns_rec(
    cfg: GenConfig,
    lists: crate::config::WordListsM,
    st: GenState,
    acc: Seq<crate::entities::TownM>,
    k: nat,
) -> Result<(Seq<crate::entities::TownM>, GenState), GenError>
    decreases k,
{
    if k == 0 {
        Ok((acc, st))
    } else {
        match spec_gen_town(cfg, lists, st) {
            Ok((t, st1)) => spec_gen_towns_rec(cfg, lists, st1, acc.push(t), (k - 1) as nat),
            Err(e) => Err(e),
        }
    }
}

/// All towns of one generation run.
pub open spec fn spec_gen_towns(
    cfg: GenConfig,
    lists: crate::config::WordListsM,
    st: GenState,
) -> Result<(Seq<crate::entities::TownM>, GenState), GenError> {
    spec_gen_towns_rec(cfg, lists, st, Seq::empty(), cfg.num_of_towns as nat)
}

/// Generate every town of the run, with its full content tree.  All
/// identifiers issued across the whole run are pairwise distinct.
#[verifier::loop_isolation(false)]
pub fn generate_towns(
    settings: &GenConfig,
    rng: &mut rand::rngs::StdRng,
    id_tracker: &mut IdTracker,
    lists: &WordLists,
) -> (r: Result<Vec<crate::entities::Town>, GenError>)
    requires
        settings.id_range_ok(),
    ensures
        old(id_tracker).issued().subset_of(final(id_tracker).issued()),
        match (
            spec_gen_towns(*settings, lists@, st_of(*old(rng), *old(id_tracker))),
            r,
        ) {
            (Ok((ts, st2)), Ok(v)) => v.deep_view() == ts && st_of(
                *final(rng),
                *final(id_tracker),
            ) == st2,
            (Err(e), Err(e2)) => e2 == e,
            _ => false,
        },
        (match r {
            Ok(v) => {
                let td = v.deep_view();
                &&& v@.len() == settings.num_of_towns
                &&& crate::entities::towns_ids(td).no_duplicates()
                &&& ids_in(crate::entities::towns_ids(td), final(id_tracker).issued())
                &&& ids_fresh(crate::entities::towns_ids(td), old(id_tracker).issued())
                &&& towns_wf(td)
                &&& towns_containers_bounded(td, *settings)
                &&& settings.min_rooms >= 1 && settings.min_rooms < settings.max_rooms
                    ==> towns_npc_rule(td, *settings)
            },
            Err(_) => true,
        }),
{
    let mut out: Vec<crate::entities::Town> = Vec::new();
    let mut i: usize = 0;
    proof {
        assert(out.deep_view() =~= Seq::<crate::entities::TownM>::empty());
        assert(crate::entities::towns_ids(out.deep_view()) =~= Seq::<u32>::empty());
    }
    while i < settings.num_of_towns
        invariant
            i <= settings.num_of_towns,
            out@.len() == i,
            spec_gen_towns(*settings, lists@, st_of(*old(rng), *old(id_tracker)))
                == spec_gen_towns_rec(
                *settings,
                lists@,
                st_of(*rng, *id_tracker),
                out.deep_view(),
                (settings.num_of_towns - i) as nat,
            ),
            old(id_tracker).issued().subset_of(id_tracker.issued()),
            crate::entities::towns_ids(out.deep_view()).no_duplicates(),
            ids_in(crate::entities::towns_ids(out.deep_view()), id_tracker.issued()),
            ids_fresh(crate::entities::towns_ids(out.deep_view()), old(id_tracker).issued()),
            towns_wf(out.deep_view()),
            towns_containers_bounded(out.deep_view(), *settings),
            settings.min_rooms >= 1 && settings.min_rooms < settings.max_rooms ==> towns_npc_rule(
                out.deep_view(),
                *settings,
            ),
        decreases settings.num_of_towns - i,
    {
        let ghost td_before = out.deep_view();
        let ghost issued_entry = id_tracker.issued();
        let town_id = match id_tracker.get_new_id(settings) {
            Ok(id) => id,
            Err(e) => {
                return Err(e);
            },
        };
        let ghost issued_after_tid = id_tracker.issued();
        let number_of_buildings = crate::rng::draw_count(
            rng,
            settings.min_buildings,
            settings.max_buildings,
        );
        let buildings = match generate_buildings(
            settings,
            rng,
            id_tracker,
            town_id,
            number_of_buildings,
            lists,
        ) {
            Ok(bs) => bs,
            Err(e) => {
                return Err(e);
            },
        };
        let ghost bsd = buildings.deep_view();
        let name = crate::namegen::generate_town_name(
            rng,
            &lists.town_prefixes,
            &lists.town_roots,
            &lists.town_suffixes,
        );
        let town = crate::entities::Town {
            id: town_id,
            name,
            coords: (0, 0),
            number_of_buildings,
            buildings,
        };
        let ghost town_m = town.deep_view();
        out.push(town);
        i = i + 1;
        proof {
            assert(out.deep_view() =~= td_before.push(town_m));
            assert(out.deep_view().drop_last() =~= td_before);
            assert(out.deep_view().last() == town_m);
            assert(town_m.buildings == bsd);
            assert(crate::entities::town_ids(town_m) == seq![town_id]
                + crate::entities::buildings_ids(bsd));
            lemma_ids_concat_no_dup(
                seq![town_id],
                crate::entities::buildings_ids(bsd),
                issued_after_tid,
            );
            assert(crate::entities::town_ids(town_m).no_duplicates());
            assert forall|k: int|
                0 <= k < crate::entities::town_ids(town_m).len() implies !issued_entry.contains(
                #[trigger] crate::entities::town_ids(town_m)[k],
            ) by {
                let x = crate::entities::town_ids(town_m)[k];
                if k > 0 {
                    assert(crate::entities::buildings_ids(bsd)[k - 1] == x);
                }
            }
            lemma_ids_concat_no_dup(
                crate::entities::towns_ids(td_before),
                crate::entities::town_ids(town_m),
                issued_entry,
            );
            assert(crate::entities::towns_ids(out.deep_view()) == crate::entities::towns_ids(
                td_before,
            ) + crate::entities::town_ids(town_m));
            assert forall|k: int|
                0 <= k < crate::entities::town_ids(town_m).len() implies id_tracker.issued()
                    .contains(#[trigger] crate::entities::town_ids(town_m)[k]) by {
                let x = crate::entities::town_ids(town_m)[k];
                if k > 0 {
                    assert(crate::entities::buildings_ids(bsd)[k - 1] == x);
                }
            }
        }
    }
    Ok(out)
}

/// Rooms with no inhabitants hold zero inhabitants in total.
pub proof fn lemma_rooms_npc_total_zero(rs: Seq<RoomM>)
    requires
        forall|j: int| 0 <= j < rs.len() ==> (#[trigger] rs[j]).npcs.len() == 0,
    ensures
        rooms_npc_total(rs) == 0,
    decreases rs.len(),
{
    if rs.len() > 0 {
        lemma_rooms_npc_total_zero(rs.drop_last());
    }
}

} // verus!
