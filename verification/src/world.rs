//! The two entry points of the pipeline: generate a fresh world, or
//! re-populate a world imported from a textual graph description.
//!
//! Both paths are pinned to spec mirrors that are pure functions of the seed,
//! the configuration, the word lists and (for an import) the text — which is
//! exactly the determinism guarantee: two runs with the same inputs yield
//! identical worlds and graphs.
use vstd::prelude::*;

use crate::codec::{spec_index_of, spec_parse_dot, RawGraph, RawGraphM};
use crate::config::{GenConfig, GenError, WordLists, WordListsM};
use crate::entities::{ids_fresh, ids_in, Edge, Town, TownM};
use crate::graph::{
    edge_costs_ok, expected_edge_count, spec_gen_graph_edges, TownGraph, TownGraphM,
};
use crate::ids::{spec_alloc_id, GenState, IdTracker};
use crate::index::{spec_build_world, World, WorldM};
use crate::rng::{rng_seed_state, spec_draw_count};
use crate::worldgen::{
    generate_buildings, generate_towns, spec_gen_buildings, spec_gen_towns, st_of,
    towns_containers_bounded, towns_npc_rule, towns_wf,
};

verus! {

/// The threaded state both random streams start from: one structural stream
/// and one identifier stream, both seeded with the same derived seed, and no
/// identifier issued yet.
pub open spec fn spec_initial_state(seed: u64) -> GenState {
    GenState {
        rng: rng_seed_state(seed),
        id_rng: rng_seed_state(seed),
        issued: Set::empty(),
    }
}

/// The whole generation pipeline as a mathematical function of the seed, the
/// configuration and the word lists.
pub open spec fn spec_generate_world(cfg: GenConfig, seed: u64, lists: WordListsM) -> Result<
    (TownGraphM, WorldM),
    GenError,
> {
    if !cfg.valid() {
        Err(GenError::InvalidConfig)
    } else {
        match spec_gen_towns(cfg, lists, spec_initial_state(seed)) {
            Ok((ts, st1)) => {
                let (es, _r2) = spec_gen_graph_edges(cfg, ts.len() as usize, st1.rng);
                Ok((TownGraphM { towns: ts, edges: es }, spec_build_world(ts)))
            },
            Err(e) => Err(e),
        }
    }
}

/// Determinism of generation: for a fixed seed, configuration and word
/// lists, two independent runs produce identical world and graph structures.
/// Each run's result is pinned by `generate_world`'s contract to
/// `spec_generate_world` of its inputs alone, so equal inputs force equal
/// outputs.
pub proof fn lemma_generation_deterministic(
    cfg1: GenConfig,
    cfg2: GenConfig,
    seed1: u64,
    seed2: u64,
    lists1: WordListsM,
    lists2: WordListsM,
)
    requires
        cfg1 == cfg2,
        seed1 == seed2,
        lists1 == lists2,
    ensures
        spec_generate_world(cfg1, seed1, lists1) == spec_generate_world(cfg2, seed2, lists2),
{
}

/// Generate a fresh world: the towns with their full content trees, the
/// connected travel graph over them, and the flattened index.  An invalid
/// configuration is rejected up front; an over-crowded identifier space
/// surfaces as an explicit error.
pub fn generate_world(settings: &GenConfig, seed: u64, lists: &WordLists) -> (r: Result<
    (TownGraph, World),
    GenError,
>)
    ensures
        match (spec_generate_world(*settings, seed, lists@), r) {
            (Ok((gm, wm)), Ok(p)) => p.0@ == gm && p.1.deep_view() == wm,
            (Err(e), Err(e2)) => e2 == e,
            _ => false,
        },
        !settings.valid() ==> r == Err::<(TownGraph, World), GenError>(GenError::InvalidConfig),
        (match r {
            Ok(p) => {
                let g = p.0@;
                &&& g.towns.len() == settings.num_of_towns
                &&& g.wf()
                &&& g.is_connected()
                &&& edge_costs_ok(g.edges, settings.cost)
                &&& g.edges.len() == expected_edge_count(*settings, g.towns.len() as int)
                &&& crate::entities::towns_ids(g.towns).no_duplicates()
                &&& towns_wf(g.towns)
                &&& towns_containers_bounded(g.towns, *settings)
                &&& settings.min_rooms >= 1 && settings.min_rooms < settings.max_rooms
                    ==> towns_npc_rule(g.towns, *settings)
                &&& p.1.deep_view() == spec_build_world(g.towns)
            },
            Err(_) => true,
        }),
{
    if !settings.check_valid() {
        return Err(GenError::InvalidConfig);
    }
    let mut rng = crate::rng::seeded_rng(seed);
    let mut id_tracker = IdTracker::new(seed);
    proof {
        assert(st_of(rng, id_tracker) == spec_initial_state(seed));
    }
    let towns = match generate_towns(settings, &mut rng, &mut id_tracker, lists) {
        Ok(ts) => ts,
        Err(e) => {
            return Err(e);
        },
    };
    let world = crate::index::build_world(&towns);
    let graph = crate::graph::generate_graph(settings, &mut rng, towns);
    Ok((graph, world))
}

/// One imported town: a fresh identifier and generated content under the
/// imported name; the placement coordinate defaults to the origin.
pub open spec fn spec_gen_town_named(
    cfg: GenConfig,
    lists: WordListsM,
    name: Seq<char>,
    st: GenState,
) -> Result<(TownM, GenState), GenError> {
    match spec_alloc_id(st, cfg) {
        Ok((town_id, st1)) => {
            let (r2, nb) = spec_draw_count(st1.rng, cfg.min_buildings, cfg.max_buildings);
            match spec_gen_buildings(cfg, lists, town_id, nb, GenState { rng: r2, ..st1 }) {
                Ok((bs, st2)) => Ok(
                    (
                        TownM {
                            id: town_id,
                            name,
                            coords: (0u32, 0u32),
                            number_of_buildings: nb,
                            buildings: bs,
                        },
                        st2,
                    ),
                ),
                Err(e) => Err(e),
            }
        },
        Err(e) => Err(e),
    }
}

/// The remaining imported towns, appended to `acc`.
pub open spec fn spec_gen_towns_named_rec(
    cfg: GenConfig,
    lists: WordListsM,
    names: Seq<Seq<char>>,
    k: int,
    st: GenState,
    acc: Seq<TownM>,
) -> Result<(Seq<TownM>, GenState), GenError>
    decreases names.len() - k,
    when 0 <= k <= names.len()
{
    if k >= names.len() {
        Ok((acc, st))
    } else {
        match spec_gen_town_named(cfg, lists, names[k], st) {
            Ok((t, st1)) => spec_gen_towns_named_rec(cfg, lists, names, k + 1, st1, acc.push(t)),
            Err(e) => Err(e),
        }
    }
}

/// Re-populate every imported town name with generated content.
pub open spec fn spec_gen_towns_named(
    cfg: GenConfig,
    lists: WordListsM,
    names: Seq<Seq<char>>,
    st: GenState,
) -> Result<(Seq<TownM>, GenState), GenError> {
    spec_gen_towns_named_rec(cfg, lists, names, 0, st, Seq::empty())
}

/// Generate full towns for the names discovered by an import, in discovery
/// order.
#[verifier::loop_isolation(false)]
pub fn generate_towns_from_imported_raw_graph(
    settings: &GenConfig,
    rng: &mut rand::rngs::StdRng,
    id_tracker: &mut IdTracker,
    graph: &RawGraph,
    lists: &WordLists,
) -> (r: Result<Vec<Town>, GenError>)
    requires
        settings.id_range_ok(),
    ensures
        match (
            spec_gen_towns_named(
                *settings,
                lists@,
                graph@.towns,
                st_of(*old(rng), *old(id_tracker)),
            ),
            r,
        ) {
            (Ok((ts, st2)), Ok(v)) => v.deep_view() == ts && st_of(
                *final(rng),
                *final(id_tracker),
            ) == st2,
            (Err(e), Err(e2)) => e2 == e,
            _ => false,
        },
        (match r {
            Ok(v) => {
                let td = v.deep_view();
                &&& v@.len() == graph@.towns.len()
                &&& forall|t: int| 0 <= t < td.len() ==> (#[trigger] td[t]).name == graph@.towns[t]
                &&& crate::entities::towns_ids(td).no_duplicates()
                &&& ids_in(crate::entities::towns_ids(td), final(id_tracker).issued())
                &&& ids_fresh(crate::entities::towns_ids(td), old(id_tracker).issued())
                &&& towns_wf(td)
                &&& towns_containers_bounded(td, *settings)
                &&& settings.min_rooms >= 1 && settings.min_rooms < settings.max_rooms
                    ==> towns_npc_rule(td, *settings)
            },
            Err(_) => true,
        }),
{
    let mut out: Vec<Town> = Vec::new();
    let mut i: usize = 0;
    proof {
        assert(out.deep_view() =~= Seq::<TownM>::empty());
        assert(crate::entities::towns_ids(out.deep_view()) =~= Seq::<u32>::empty());
    }
    while i < graph.towns.len()
        invariant
            i <= graph@.towns.len(),
            out@.len() == i,
            spec_gen_towns_named(
                *settings,
                lists@,
                graph@.towns,
                st_of(*old(rng), *old(id_tracker)),
            ) == spec_gen_towns_named_rec(
                *settings,
                lists@,
                graph@.towns,
                i as int,
                st_of(*rng, *id_tracker),
                out.deep_view(),
            ),
            old(id_tracker).issued().subset_of(id_tracker.issued()),
            crate::entities::towns_ids(out.deep_view()).no_duplicates(),
            ids_in(crate::entities::towns_ids(out.deep_view()), id_tracker.issued()),
            ids_fresh(crate::entities::towns_ids(out.deep_view()), old(id_tracker).issued()),
            towns_wf(out.deep_view()),
            towns_containers_bounded(out.deep_view(), *settings),
            settings.min_rooms >= 1 && settings.min_rooms < settings.max_rooms ==> towns_npc_rule(
                out.deep_view(),
                *settings,
            ),
            forall|t: int|
                0 <= t < out.deep_view().len() ==> (#[trigger] out.deep_view()[t]).name
                    == graph@.towns[t],
        decreases graph@.towns.len() - i,
    {
        let ghost td_before = out.deep_view();
        let ghost issued_entry = id_tracker.issued();
        let town_id = match id_tracker.get_new_id(settings) {
            Ok(id) => id,
            Err(e) => {
                return Err(e);
            },
        };
        let ghost issued_after_tid = id_tracker.issued();
        let number_of_buildings = crate::rng::draw_count(
            rng,
            settings.min_buildings,
            settings.max_buildings,
        );
        let buildings = match generate_buildings(
            settings,
            rng,
            id_tracker,
            town_id,
            number_of_buildings,
            lists,
        ) {
            Ok(bs) => bs,
            Err(e) => {
                return Err(e);
            },
        };
        let ghost bsd = buildings.deep_view();
        let townname = graph.towns[i].name.clone();
        let town = Town {
            id: town_id,
            name: townname,
            coords: (0, 0),
            number_of_buildings,
            buildings,
        };
        let ghost town_m = town.deep_view();
        out.push(town);
        i = i + 1;
        proof {
            assert(out.deep_view() =~= td_before.push(town_m));
            assert(out.deep_view().drop_last() =~= td_before);
            assert(out.deep_view().last() == town_m);
            assert(town_m.buildings == bsd);
            assert(town_m.name == graph@.towns[i - 1]);
            assert(crate::entities::town_ids(town_m) == seq![town_id]
                + crate::entities::buildings_ids(bsd));
            crate::entities::lemma_ids_concat_no_dup(
                seq![town_id],
                crate::entities::buildings_ids(bsd),
                issued_after_tid,
            );
            assert forall|k: int|
                0 <= k < crate::entities::town_ids(town_m).len() implies !issued_entry.contains(
                #[trigger] crate::entities::town_ids(town_m)[k],
            ) by {
                let x = crate::entities::town_ids(town_m)[k];
                if k > 0 {
                    assert(crate::entities::buildings_ids(bsd)[k - 1] == x);
                }
            }
            crate::entities::lemma_ids_concat_no_dup(
                crate::entities::towns_ids(td_before),
                crate::entities::town_ids(town_m),
                issued_entry,
            );
            assert(crate::entities::towns_ids(out.deep_view()) == crate::entities::towns_ids(
                td_before,
            ) + crate::entities::town_ids(town_m));
            assert forall|k: int|
                0 <= k < crate::entities::town_ids(town_m).len() implies id_tracker.issued()
                    .contains(#[trigger] crate::entities::town_ids(town_m)[k]) by {
                let x = crate::entities::town_ids(town_m)[k];
                if k > 0 {
                    assert(crate::entities::buildings_ids(bsd)[k - 1] == x);
                }
            }
        }
    }
    Ok(out)
}

/// The edges of the rebuilt graph: each raw edge re-addressed by looking its
/// endpoint names up among the populated towns; unmatched endpoints drop the
/// edge.
pub open spec fn spec_import_edges_rec(
    raw: RawGraphM,
    names: Seq<Seq<char>>,
    k: int,
    acc: Seq<Edge>,
) -> Seq<Edge>
    decreases raw.edges.len() - k,
    when 0 <= k <= raw.edges.len()
{
    if k >= raw.edges.len() {
        acc
    } else {
        let e = raw.edges[k];
        let acc2 = if e.source < raw.towns.len() && e.target < raw.towns.len() {
            match (
                spec_index_of(names, raw.towns[e.source as int]),
                spec_index_of(names, raw.towns[e.target as int]),
            ) {
                (Some(si), Some(ti)) => acc.push(
                    Edge { source: si as usize, target: ti as usize, info: e.info },
                ),
                _ => acc,
            }
        } else {
            acc
        };
        spec_import_edges_rec(raw, names, k + 1, acc2)
    }
}

/// The names of a town sequence, in order.
pub open spec fn spec_town_names(ts: Seq<TownM>) -> Seq<Seq<char>> {
    ts.map_values(|t: TownM| t.name)
}

/// Build the travel graph of an imported world: the populated towns as
/// vertices, and the raw edges re-addressed by town name.
#[verifier::loop_isolation(false)]
pub fn generate_graph_from_imported_towns(graph: &RawGraph, towns: Vec<Town>) -> (g: TownGraph)
    ensures
        g@.towns == towns.deep_view(),
        g@.edges == spec_import_edges_rec(graph@, spec_town_names(towns.deep_view()), 0, Seq::empty()),
        forall|k: int|
            0 <= k < g@.edges.len() ==> (#[trigger] g@.edges[k]).source < g@.towns.len()
                && g@.edges[k].target < g@.towns.len(),
{
    let ghost names = spec_town_names(towns.deep_view());
    let mut edges: Vec<Edge> = Vec::new();
    let mut k: usize = 0;
    proof {
        assert(edges@ =~= Seq::<Edge>::empty());
    }
    while k < graph.edges.len()
        invariant
            k <= graph@.edges.len(),
            spec_import_edges_rec(graph@, names, 0, Seq::empty()) == spec_import_edges_rec(
                graph@,
                names,
                k as int,
                edges@,
            ),
            forall|e: int|
                0 <= e < edges@.len() ==> (#[trigger] edges@[e]).source < towns@.len()
                    && edges@[e].target < towns@.len(),
        decreases graph@.edges.len() - k,
    {
        let e = graph.edges[k];
        if e.source < graph.towns.len() && e.target < graph.towns.len() {
            let src_idx = index_of_town(&towns, &graph.towns[e.source].name);
            let tgt_idx = index_of_town(&towns, &graph.towns[e.target].name);
            match (src_idx, tgt_idx) {
                (Some(si), Some(ti)) => {
                    edges.push(Edge { source: si, target: ti, info: e.info });
                },
                _ => {},
            }
        }
        k = k + 1;
    }
    TownGraph { towns, edges }
}

/// Find the first town carrying the given name.
fn index_of_town(towns: &Vec<Town>, name: &String) -> (r: Option<usize>)
    ensures
        match (spec_index_of(spec_town_names(towns.deep_view()), name@), r) {
            (Some(i), Some(i2)) => i == i2 as int && i2 < towns@.len(),
            (None, None) => true,
            _ => false,
        },
{
    let ghost names = spec_town_names(towns.deep_view());
    let mut i: usize = 0;
    proof {
        assert(names.skip(0) =~= names);
    }
    while i < towns.len()
        invariant
            i <= towns@.len(),
            names == spec_town_names(towns.deep_view()),
            spec_index_of(names, name@) == (match spec_index_of(names.skip(i as int), name@) {
                Some(p) => Some(p + i),
                None => None,
            }),
        decreases towns@.len() - i,
    {
        let ghost pre = names.skip(i as int);
        if towns[i].name == *name {
            proof {
                assert(pre[0] == names[i as int]);
            }
            return Some(i);
        }
        i = i + 1;
        proof {
            assert(pre[0] == names[i - 1]);
            assert(pre.drop_first() =~= names.skip(i as int));
        }
    }
    proof {
        assert(names.skip(i as int) =~= Seq::<Seq<char>>::empty());
    }
    None
}

/// The whole import pipeline as a function of the text, the seed, the
/// configuration and the word lists.
pub open spec fn spec_import(text: Seq<char>, seed: u64, cfg: GenConfig, lists: WordListsM) -> Result<
    (TownGraphM, WorldM),
    GenError,
> {
    if !cfg.valid() {
        Err(GenError::InvalidConfig)
    } else {
        let (names, raw_edges) = spec_parse_dot(text);
        let raw = RawGraphM { towns: names, edges: raw_edges };
        match spec_gen_towns_named(cfg, lists, names, spec_initial_state(seed)) {
            Ok((ts, _st1)) => {
                let es = spec_import_edges_rec(raw, spec_town_names(ts), 0, Seq::empty());
                Ok((TownGraphM { towns: ts, edges: es }, spec_build_world(ts)))
            },
            Err(e) => Err(e),
        }
    }
}

/// Generate a world and its world index from the names discovered in a raw
/// imported graph.
pub fn generate_world_from_imported_raw_graph(
    settings: &GenConfig,
    graph: &RawGraph,
    seed: u64,
    lists: &WordLists,
) -> (r: Result<(Vec<Town>, World), GenError>)
    requires
        settings.id_range_ok(),
    ensures
        match (
            spec_gen_towns_named(*settings, lists@, graph@.towns, spec_initial_state(seed)),
            r,
        ) {
            (Ok((ts, _st)), Ok(p)) => p.0.deep_view() == ts && p.1.deep_view() == spec_build_world(
                ts,
            ),
            (Err(e), Err(e2)) => e2 == e,
            _ => false,
        },
{
    let mut rng = crate::rng::seeded_rng(seed);
    let mut id_tracker = IdTracker::new(seed);
    proof {
        assert(st_of(rng, id_tracker) == spec_initial_state(seed));
    }
    let towns = match generate_towns_from_imported_raw_graph(
        settings,
        &mut rng,
        &mut id_tracker,
        graph,
        lists,
    ) {
        Ok(ts) => ts,
        Err(e) => {
            return Err(e);
        },
    };
    let world = crate::index::build_world(&towns);
    Ok((towns, world))
}

/// Import a world from a textual graph description: parse the text into raw
/// towns and edges, re-populate every town, and rebuild the graph over the
/// populated towns.  Malformed lines are silently skipped by the parser; an
/// invalid configuration is rejected up front.
pub fn import(text: &str, seed: u64, settings: &GenConfig, lists: &WordLists) -> (r: Result<
    (TownGraph, World),
    GenError,
>)
    ensures
        match (spec_import(text@, seed, *settings, lists@), r) {
            (Ok((gm, wm)), Ok(p)) => p.0@ == gm && p.1.deep_view() == wm,
            (Err(e), Err(e2)) => e2 == e,
            _ => false,
        },
        !settings.valid() ==> r == Err::<(TownGraph, World), GenError>(GenError::InvalidConfig),
{
    if !settings.check_valid() {
        return Err(GenError::InvalidConfig);
    }
    let raw = crate::codec::parse_dot(text);
    let (towns, world) = match generate_world_from_imported_raw_graph(
        settings,
        &raw,
        seed,
        lists,
    ) {
        Ok(p) => p,
        Err(e) => {
            return Err(e);
        },
    };
    let graph = generate_graph_from_imported_towns(&raw, towns);
    Ok((graph, world))
}

} // verus!