//! End-to-end tests of the generation pipeline.
use towngen::config::{GenConfig, GenError, WordLists};
use towngen::entities::BuildingType;
use towngen::graph::TownGraph;
use towngen::seed::seed_from_word;
use towngen::world::generate_world;

fn test_config() -> GenConfig {
    GenConfig {
        num_of_towns: 4,
        num_of_connections: 3,
        min_distance: 10,
        max_distance: 100,
        cost: 5,
        min_id: 1,
        max_id: 1_000_000,
        min_buildings: 2,
        max_buildings: 6,
        min_npcs: 2,
        max_npcs: 5,
        min_rooms: 1,
        max_rooms: 4,
        min_containers: 0,
        max_containers: 3,
    }
}

fn test_lists() -> WordLists {
    WordLists {
        town_prefixes: vec!["North".into(), "South".into(), "East".into()],
        town_roots: vec!["wood".into(), "field".into(), "bridge".into()],
        town_suffixes: vec!["ton".into(), "ham".into(), "wick".into()],
        surnames: vec!["Ashford".into(), "Breckley".into(), "Cole".into()],
        shops: vec!["Bakery".into(), "Smithy".into()],
        taverns: vec!["The Green Dragon".into(), "The Old Mill".into()],
        temples: vec!["Dawn".into(), "Tides".into()],
        names_male: vec!["Aldric".into(), "Bram".into()],
        names_female: vec!["Ceri".into(), "Dana".into()],
        names_unisex: vec!["Ember".into(), "Fen".into()],
    }
}

fn all_ids(graph: &TownGraph) -> Vec<u32> {
    let mut ids = Vec::new();
    for town in &graph.towns {
        ids.push(town.id);
        for building in &town.buildings {
            ids.push(building.id);
            for room in &building.rooms {
                ids.push(room.id);
                for npc in &room.npcs {
                    ids.push(npc.id);
                }
                for container in &room.containers {
                    ids.push(container.id);
                }
            }
        }
    }
    ids
}

fn is_connected(graph: &TownGraph) -> bool {
    let n = graph.towns.len();
    if n == 0 {
        return true;
    }
    let mut adj = vec![Vec::new(); n];
    for e in &graph.edges {
        adj[e.source].push(e.target);
        adj[e.target].push(e.source);
    }
    let mut seen = vec![false; n];
    let mut queue = vec![0usize];
    seen[0] = true;
    while let Some(v) = queue.pop() {
        for &w in &adj[v] {
            if !seen[w] {
                seen[w] = true;
                queue.push(w);
            }
        }
    }
    seen.iter().all(|&s| s)
}

#[test]
fn generation_is_deterministic() {
    let cfg = test_config();
    let seed = seed_from_word("Generate");
    let (g1, w1) = generate_world(&cfg, seed, &test_lists()).unwrap();
    let (g2, w2) = generate_world(&cfg, seed, &test_lists()).unwrap();
    assert_eq!(g1.towns, g2.towns);
    assert_eq!(g1.edges, g2.edges);
    assert_eq!(w1.towns, w2.towns);
    assert_eq!(w1.buildings, w2.buildings);
    assert_eq!(w1.rooms, w2.rooms);
    assert_eq!(w1.npcs, w2.npcs);
    assert_eq!(w1.containers, w2.containers);
}

#[test]
fn identifiers_are_unique() {
    let cfg = test_config();
    let seed = seed_from_word("Generate");
    let (graph, _world) = generate_world(&cfg, seed, &test_lists()).unwrap();
    let mut ids = all_ids(&graph);
    let total = ids.len();
    ids.sort_unstable();
    ids.dedup();
    assert_eq!(ids.len(), total);
}

#[test]
fn category_rules_hold() {
    let cfg = test_config();
    let seed = seed_from_word("Generate");
    let (graph, _world) = generate_world(&cfg, seed, &test_lists()).unwrap();
    for town in &graph.towns {
        for building in &town.buildings {
            let count: usize = building.rooms.iter().map(|r| r.npcs.len()).sum();
            match building.building_type {
                BuildingType::Shop => assert_eq!(count, 1),
                BuildingType::Residence => assert_eq!(count, 2),
                BuildingType::Tavern | BuildingType::Temple => {
                    assert!(cfg.min_npcs as usize <= count && count < cfg.max_npcs as usize);
                },
            }
        }
    }
}

#[test]
fn degenerate_container_range_yields_none() {
    let mut cfg = test_config();
    cfg.min_containers = 0;
    cfg.max_containers = 0;
    let seed = seed_from_word("Generate");
    let (graph, _world) = generate_world(&cfg, seed, &test_lists()).unwrap();
    let mut rooms_seen = 0;
    for town in &graph.towns {
        for building in &town.buildings {
            for room in &building.rooms {
                rooms_seen += 1;
                assert_eq!(room.containers.len(), 0);
            }
        }
    }
    assert!(rooms_seen > 0);
}

#[test]
fn single_town_has_no_edges() {
    let mut cfg = test_config();
    cfg.num_of_towns = 1;
    cfg.num_of_connections = 17;
    let seed = seed_from_word("Generate");
    let (graph, _world) = generate_world(&cfg, seed, &test_lists()).unwrap();
    assert_eq!(graph.towns.len(), 1);
    assert_eq!(graph.edges.len(), 0);
}

#[test]
fn four_towns_three_connections_spans_exactly() {
    let cfg = test_config();
    let seed = seed_from_word("Generate");
    let (graph, _world) = generate_world(&cfg, seed, &test_lists()).unwrap();
    assert_eq!(graph.towns.len(), 4);
    assert_eq!(graph.edges.len(), 3);
    assert!(is_connected(&graph));
}

#[test]
fn edge_costs_are_exact_multiples() {
    let mut cfg = test_config();
    cfg.num_of_towns = 5;
    cfg.num_of_connections = 8;
    let seed = seed_from_word("Generate");
    let (graph, _world) = generate_world(&cfg, seed, &test_lists()).unwrap();
    assert!(!graph.edges.is_empty());
    for e in &graph.edges {
        assert_eq!(e.info.cost, e.info.distance * cfg.cost);
        assert!(cfg.min_distance <= e.info.distance && e.info.distance < cfg.max_distance);
    }
}

#[test]
fn generous_budget_stays_connected() {
    let mut cfg = test_config();
    cfg.num_of_towns = 6;
    cfg.num_of_connections = 20;
    let seed = seed_from_word("roads");
    let (graph, _world) = generate_world(&cfg, seed, &test_lists()).unwrap();
    // 6 towns have 15 distinct pairs, fewer than the requested 20 routes
    assert_eq!(graph.edges.len(), 15);
    assert!(is_connected(&graph));
}

#[test]
fn tight_budget_keeps_spanning_structure() {
    let mut cfg = test_config();
    cfg.num_of_towns = 5;
    cfg.num_of_connections = 0;
    let seed = seed_from_word("sparse");
    let (graph, _world) = generate_world(&cfg, seed, &test_lists()).unwrap();
    assert_eq!(graph.edges.len(), 4);
    assert!(is_connected(&graph));
}

#[test]
fn invalid_id_range_is_rejected() {
    let mut cfg = test_config();
    cfg.min_id = 10;
    cfg.max_id = 10;
    let seed = seed_from_word("Generate");
    let r = generate_world(&cfg, seed, &test_lists());
    assert_eq!(r, Err(GenError::InvalidConfig));
}

#[test]
fn crowded_id_space_is_reported() {
    let mut cfg = test_config();
    cfg.min_id = 1;
    cfg.max_id = 2;
    let seed = seed_from_word("Generate");
    let r = generate_world(&cfg, seed, &test_lists());
    assert_eq!(r, Err(GenError::IdSpaceExhausted));
}

#[test]
fn back_references_are_consistent() {
    let cfg = test_config();
    let seed = seed_from_word("Generate");
    let (graph, _world) = generate_world(&cfg, seed, &test_lists()).unwrap();
    for town in &graph.towns {
        assert_eq!(town.number_of_buildings as usize, town.buildings.len());
        for building in &town.buildings {
            assert_eq!(building.town_id, town.id);
            for room in &building.rooms {
                assert_eq!(room.town_id, town.id);
                assert_eq!(room.building_id, building.id);
                for npc in &room.npcs {
                    assert_eq!(npc.town_id, town.id);
                    assert_eq!(npc.building_id, building.id);
                    assert_eq!(npc.room_id, Some(room.id));
                }
                for container in &room.containers {
                    assert_eq!(container.town_id, town.id);
                    assert_eq!(container.building_id, building.id);
                    assert_eq!(container.room_id, room.id);
                }
            }
        }
    }
}

#[test]
fn world_index_covers_the_tree() {
    let cfg = test_config();
    let seed = seed_from_word("Generate");
    let (graph, world) = generate_world(&cfg, seed, &test_lists()).unwrap();
    let mut town_count = 0;
    let mut building_count = 0;
    let mut room_count = 0;
    let mut npc_count = 0;
    let mut container_count = 0;
    for town in &graph.towns {
        town_count += 1;
        assert!(world.towns.contains_key(&town.id));
        for building in &town.buildings {
            building_count += 1;
            assert!(world.buildings.contains_key(&building.id));
            for room in &building.rooms {
                room_count += 1;
                assert!(world.rooms.contains_key(&room.id));
                for npc in &room.npcs {
                    npc_count += 1;
                    assert!(world.npcs.contains_key(&npc.id));
                }
                for container in &room.containers {
                    container_count += 1;
                    assert!(world.containers.contains_key(&container.id));
                }
            }
        }
    }
    assert_eq!(world.towns.len(), town_count);
    assert_eq!(world.buildings.len(), building_count);
    assert_eq!(world.rooms.len(), room_count);
    assert_eq!(world.npcs.len(), npc_count);
    assert_eq!(world.containers.len(), container_count);
}

#[test]
fn seed_phrase_drives_the_seed() {
    assert_eq!(seed_from_word("Generate"), seed_from_word("Generate"));
    assert_eq!(seed_from_word(""), seed_from_word(""));
}

#[test]
fn empty_word_lists_degrade_to_sentinel() {
    let mut cfg = test_config();
    cfg.num_of_towns = 1;
    let empty = WordLists {
        town_prefixes: Vec::new(),
        town_roots: Vec::new(),
        town_suffixes: Vec::new(),
        surnames: Vec::new(),
        shops: Vec::new(),
        taverns: Vec::new(),
        temples: Vec::new(),
        names_male: Vec::new(),
        names_female: Vec::new(),
        names_unisex: Vec::new(),
    };
    let seed = seed_from_word("Generate");
    let (graph, _world) = generate_world(&cfg, seed, &empty).unwrap();
    assert_eq!(graph.towns[0].name, "NO DATA NO DATANO DATA");
}
