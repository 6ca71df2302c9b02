//! Tests of the textual graph codec: export, parsing, and the round trip.
use towngen::codec::{graph_to_dot, parse_dot, parse_edge_line, parse_u32, u32_to_string};
use towngen::config::{GenConfig, WordLists};
use towngen::entities::{Edge, JourneyInfo, Town};
use towngen::graph::TownGraph;
use towngen::seed::seed_from_word;
use towngen::world::import;
use towngen::worldgen::ceil_sqrt;

fn named_town(id: u32, name: &str) -> Town {
    Town {
        id,
        name: name.to_string(),
        coords: (0, 0),
        number_of_buildings: 0,
        buildings: Vec::new(),
    }
}

fn import_config() -> GenConfig {
    GenConfig {
        num_of_towns: 2,
        num_of_connections: 3,
        min_distance: 10,
        max_distance: 100,
        cost: 5,
        min_id: 1,
        max_id: 1_000_000,
        min_buildings: 1,
        max_buildings: 3,
        min_npcs: 1,
        max_npcs: 3,
        min_rooms: 1,
        max_rooms: 3,
        min_containers: 0,
        max_containers: 2,
    }
}

fn small_lists() -> WordLists {
    WordLists {
        town_prefixes: vec!["North".into()],
        town_roots: vec!["wood".into()],
        town_suffixes: vec!["ton".into()],
        surnames: vec!["Ashford".into()],
        shops: vec!["Bakery".into()],
        taverns: vec!["The Green Dragon".into()],
        temples: vec!["Dawn".into()],
        names_male: vec!["Aldric".into()],
        names_female: vec!["Ceri".into()],
        names_unisex: vec!["Ember".into()],
    }
}

#[test]
fn label_parses_distance_and_cost() {
    let ji = JourneyInfo::from_label("30 m / 150 gold").unwrap();
    assert_eq!(ji.distance, 30);
    assert_eq!(ji.cost, 150);
}

#[test]
fn label_without_slash_is_rejected() {
    assert_eq!(JourneyInfo::from_label("30 m 150 gold"), None);
}

#[test]
fn label_with_two_slashes_is_rejected() {
    assert_eq!(JourneyInfo::from_label("30 m / 150 / gold"), None);
}

#[test]
fn label_with_bad_number_is_rejected() {
    assert_eq!(JourneyInfo::from_label("x m / 150 gold"), None);
    assert_eq!(JourneyInfo::from_label(" / 150 gold"), None);
    assert_eq!(JourneyInfo::from_label("4294967296 m / 1 gold"), None);
}

#[test]
fn edge_line_parses_its_parts() {
    let line = "    \"Alderwood\" -- \"Brightfen\" [label=\"30 m / 150 gold\", len=3];";
    let (source, target, label) = parse_edge_line(line).unwrap();
    assert_eq!(source, "Alderwood");
    assert_eq!(target, "Brightfen");
    assert_eq!(label, "30 m / 150 gold");
}

#[test]
fn edge_line_requires_leading_quote() {
    assert_eq!(
        parse_edge_line("    Alderwood -- \"Brightfen\" [label=\"30 m / 150 gold\"];"),
        None
    );
}

#[test]
fn edge_line_requires_separator_and_label() {
    assert_eq!(parse_edge_line("\"Alderwood\" \"Brightfen\" [label=\"1 m / 5 gold\"];"), None);
    assert_eq!(parse_edge_line("\"Alderwood\" -- \"Brightfen\";"), None);
}

#[test]
fn edge_line_with_two_separators_is_rejected() {
    assert_eq!(
        parse_edge_line("\"A\" -- \"B\" -- \"C\" [label=\"1 m / 5 gold\"];"),
        None
    );
}

#[test]
fn header_and_footer_lines_are_skipped() {
    assert_eq!(parse_edge_line("graph Towns {"), None);
    assert_eq!(parse_edge_line("}"), None);
    assert_eq!(parse_edge_line(""), None);
}

#[test]
fn export_emits_the_documented_shape() {
    let graph = TownGraph {
        towns: vec![named_town(1, "Alderwood"), named_town(2, "Brightfen")],
        edges: vec![Edge { source: 0, target: 1, info: JourneyInfo { distance: 30, cost: 150 } }],
    };
    let text = graph_to_dot(&graph);
    assert_eq!(
        text,
        "graph Towns {\n    \"Alderwood\" -- \"Brightfen\" [label=\"30 m / 150 gold\", len=3];\n}\n"
    );
}

#[test]
fn export_then_parse_round_trips() {
    let graph = TownGraph {
        towns: vec![named_town(1, "Alderwood"), named_town(2, "Brightfen")],
        edges: vec![Edge { source: 0, target: 1, info: JourneyInfo { distance: 30, cost: 150 } }],
    };
    let text = graph_to_dot(&graph);
    let raw = parse_dot(&text);
    assert_eq!(raw.towns.len(), 2);
    assert_eq!(raw.towns[0].name, "Alderwood");
    assert_eq!(raw.towns[1].name, "Brightfen");
    assert_eq!(raw.edges.len(), 1);
    assert_eq!(raw.edges[0].source, 0);
    assert_eq!(raw.edges[0].target, 1);
    assert_eq!(raw.edges[0].info.distance, 30);
    assert_eq!(raw.edges[0].info.cost, 150);
}

#[test]
fn import_repopulates_the_named_towns() {
    let graph = TownGraph {
        towns: vec![named_town(1, "Alderwood"), named_town(2, "Brightfen")],
        edges: vec![Edge { source: 0, target: 1, info: JourneyInfo { distance: 30, cost: 150 } }],
    };
    let text = graph_to_dot(&graph);
    let seed = seed_from_word("Generate");
    let (imported, world) = import(&text, seed, &import_config(), &small_lists()).unwrap();
    assert_eq!(imported.towns.len(), 2);
    assert_eq!(imported.towns[0].name, "Alderwood");
    assert_eq!(imported.towns[1].name, "Brightfen");
    assert_eq!(imported.edges.len(), 1);
    assert_eq!(imported.edges[0].info.distance, 30);
    assert_eq!(imported.edges[0].info.cost, 150);
    assert!(!imported.towns[0].buildings.is_empty());
    assert_eq!(world.towns.len(), 2);
}

#[test]
fn malformed_lines_are_silently_skipped() {
    let text = "graph Towns {\n\
        not an edge line\n\
        \"A\" -- \"B\" [label=\"12 m / 60 gold\", len=1];\n\
        \"C\" -- \"D\" [label=\"nonsense\", len=1];\n\
        }\n";
    let raw = parse_dot(text);
    // the malformed label still registers its towns, but records no edge
    assert_eq!(raw.towns.len(), 4);
    assert_eq!(raw.edges.len(), 1);
    assert_eq!(raw.edges[0].info.distance, 12);
    assert_eq!(raw.edges[0].info.cost, 60);
}

#[test]
fn repeated_names_reuse_their_vertex() {
    let text = "\"A\" -- \"B\" [label=\"1 m / 5 gold\", len=0];\n\
        \"B\" -- \"C\" [label=\"2 m / 10 gold\", len=0];\n";
    let raw = parse_dot(text);
    assert_eq!(raw.towns.len(), 3);
    assert_eq!(raw.edges.len(), 2);
    assert_eq!(raw.edges[1].source, 1);
    assert_eq!(raw.edges[1].target, 2);
}

#[test]
fn numerals_render_exactly() {
    assert_eq!(u32_to_string(0), "0");
    assert_eq!(u32_to_string(30), "30");
    assert_eq!(u32_to_string(105), "105");
    assert_eq!(u32_to_string(u32::MAX), "4294967295");
}

#[test]
fn numbers_parse_as_the_standard_library_does() {
    assert_eq!(parse_u32("0"), Some(0));
    assert_eq!(parse_u32("007"), Some(7));
    assert_eq!(parse_u32("+42"), Some(42));
    assert_eq!(parse_u32("4294967295"), Some(4294967295));
    assert_eq!(parse_u32("4294967296"), None);
    assert_eq!(parse_u32(""), None);
    assert_eq!(parse_u32("+"), None);
    assert_eq!(parse_u32("12a"), None);
    assert_eq!(parse_u32("-3"), None);
}

#[test]
fn grid_side_is_the_square_root_ceiling() {
    assert_eq!(ceil_sqrt(0), 0);
    assert_eq!(ceil_sqrt(1), 1);
    assert_eq!(ceil_sqrt(2), 2);
    assert_eq!(ceil_sqrt(4), 2);
    assert_eq!(ceil_sqrt(5), 3);
    assert_eq!(ceil_sqrt(16), 4);
    assert_eq!(ceil_sqrt(17), 5);
}
