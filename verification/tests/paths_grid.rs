use bathtub::grid::grid;
use bathtub::nodes::{get_nodemap, Node, Nodes};
use bathtub::paths::{gen_node_paths, try_node_paths};

fn node(name: &str, x: i64, y: i64, z: i64, hide: bool, neighbors: &[&str]) -> Node {
    Node {
        name: name.to_string(),
        x,
        y,
        z,
        hide,
        neighbors: neighbors.iter().map(|s| s.to_string()).collect(),
    }
}

fn chain() -> Nodes {
    Nodes {
        node: vec![
            node("HOME", 0, 0, 0, true, &["A"]),
            node("A", -2000, 0, 0, false, &["HOME", "B"]),
            node("B", -4000, 0, 0, false, &["A"]),
        ],
    }
}

#[test]
fn path_along_a_chain_ends_at_the_destination() {
    let nodes = chain();
    let start = nodes.node[0].clone();
    let stop = nodes.node[2].clone();
    let path = gen_node_paths(&nodes, &start, &stop);
    let names: Vec<String> = path.node.iter().map(|n| n.name.clone()).collect();
    assert_eq!(names, vec!["A".to_string(), "B".to_string()]);
}

#[test]
fn path_to_the_same_node_is_that_node() {
    let nodes = chain();
    let start = nodes.node[1].clone();
    let path = gen_node_paths(&nodes, &start, &start);
    assert_eq!(path.node.len(), 1);
    assert_eq!(path.node[0].name, "A");
}

#[test]
fn path_to_the_same_name_needs_no_search() {
    // the list is not consulted: even an empty one gives the start alone
    let start = node("A", -2000, 0, 0, false, &["GHOST"]);
    let path = gen_node_paths(&Nodes { node: Vec::new() }, &start, &start.clone());
    assert_eq!(path.node.len(), 1);
    assert_eq!(path.node[0].name, "A");
}

#[test]
fn unreachable_destination_has_no_path() {
    let nodes = Nodes {
        node: vec![
            node("HOME", 0, 0, 0, true, &["A"]),
            node("A", -2000, 0, 0, false, &["HOME"]),
            node("B", -4000, 0, 0, false, &[]),
        ],
    };
    let start = nodes.node[0].clone();
    let stop = nodes.node[2].clone();
    assert!(try_node_paths(&nodes, &start, &stop).is_none());
}

#[test]
fn path_with_an_unknown_neighbour_is_refused() {
    let nodes = Nodes {
        node: vec![
            node("HOME", 0, 0, 0, true, &["GHOST"]),
            node("A", -2000, 0, 0, false, &["HOME"]),
        ],
    };
    let start = nodes.node[0].clone();
    let stop = nodes.node[1].clone();
    assert!(try_node_paths(&nodes, &start, &stop).is_none());
}

#[test]
fn node_map_finds_last_position_of_a_name() {
    let nodes = Nodes {
        node: vec![
            node("A", 0, 0, 0, false, &[]),
            node("B", 0, 0, 0, false, &[]),
            node("A", 1, 0, 0, false, &[]),
        ],
    };
    let map = get_nodemap(&nodes);
    assert_eq!(map.get("A"), Some(2));
    assert_eq!(map.get("B"), Some(1));
    assert_eq!(map.get("C"), None);
    assert_eq!(map.len(), 3);
}

#[test]
fn grid_places_nodes_by_rows_and_columns() {
    let nodes = Nodes {
        node: vec![
            node("N1", -2000, -1000, 0, false, &[]),
            node("N2", -8000, -1000, 0, false, &[]),
            node("N3", -2000, -5000, 0, false, &[]),
            node("N1_hover", -2000, -1000, -1000, false, &[]),
            node("HOME", -9000, 0, 0, true, &[]),
        ],
    };
    let g = grid(&nodes);
    // N1 and N3 sit in column 4, N2 in column 10; the other columns are empty
    assert_eq!(g, vec![vec![Some(0), Some(1)], vec![Some(2), None]]);
}

#[test]
fn grid_keeps_columns_in_x_order() {
    let nodes = Nodes {
        node: vec![
            node("Left", -5000, 0, 0, false, &[]),
            node("Right", -2000, 0, 0, false, &[]),
            node("Far", -9000, 0, 0, false, &[]),
        ],
    };
    // one row; Right fills column 4, Left column 7, Far column 10
    let g = grid(&nodes);
    assert_eq!(g, vec![vec![Some(1), Some(0), Some(2)]]);
}

#[test]
fn grid_gives_every_destination_a_button() {
    // nodes closer than 1 cm apart in x push each other to the next column
    let nodes = Nodes {
        node: vec![
            node("P", -9500, 0, 0, false, &[]),
            node("Q", -9000, 0, 0, false, &[]),
            node("R", -9900, 300, 0, false, &[]),
        ],
    };
    let g = grid(&nodes);
    assert_eq!(g, vec![vec![Some(1), Some(0), Some(2)]]);
}

fn names(p: &Nodes) -> Vec<String> {
    p.node.iter().map(|n| n.name.clone()).collect()
}

#[test]
fn equal_distances_thinned_to_joined_path() {
    let nodes = Nodes {
        node: vec![
            node("T", 0, 0, 0, false, &["U", "V"]),
            node("U", 0, 0, 0, false, &["W", "V", "T"]),
            node("V", 0, 0, 0, false, &["W", "U", "T"]),
            node("W", 0, 0, 0, false, &["S", "U", "V"]),
        ],
    };
    let start = node("S", 0, 0, 0, true, &["W"]);
    let path = gen_node_paths(&nodes, &start, &nodes.node[0].clone());
    assert_eq!(names(&path), vec!["W".to_string(), "U".to_string(), "T".to_string()]);
}

#[test]
fn equal_distance_drop_can_skip_a_joint() {
    // B and A end up with the same distance; dropping B leaves C followed
    // by A, which are not neighbours
    let nodes = Nodes {
        node: vec![
            node("T", 0, 0, 0, false, &["A"]),
            node("A", 0, 0, 0, false, &["D", "T", "B"]),
            node("B", 0, 0, 0, false, &["C", "A"]),
            node("C", 0, 0, 0, false, &["S", "B"]),
            node("D", 0, 0, 0, false, &["S", "A"]),
        ],
    };
    let start = node("S", 0, 0, 0, true, &["C", "D"]);
    let path = gen_node_paths(&nodes, &start, &nodes.node[0].clone());
    assert_eq!(names(&path), vec!["C".to_string(), "A".to_string(), "T".to_string()]);
    // each step lists the node before it, or cuts across one node that does
    for k in 0..path.node.len() - 1 {
        let (a, c) = (&path.node[k], &path.node[k + 1]);
        let direct = c.neighbors.contains(&a.name);
        let across = nodes.node.iter().chain([&start]).any(|b| c.neighbors.contains(&b.name) && b.neighbors.contains(&a.name));
        assert!(direct || across, "{} to {}", a.name, c.name);
    }
    assert!(!path.node[1].neighbors.contains(&path.node[0].name));
}

#[test]
fn height_nodes_keep_names_distinct_and_links_inside() {
    let mut nodes = Nodes {
        node: vec![
            node("HOME", 0, 0, 0, true, &["A"]),
            node("A", -2000, 0, 0, false, &["B"]),
            node("B", -4000, 0, 0, false, &["A"]),
        ],
    };
    nodes.add_height_nodes();
    let all = names(&nodes);
    assert_eq!(all, vec!["HOME", "A_hover", "A", "B_hover", "B"]);
    for (i, a) in all.iter().enumerate() {
        assert!(!all[i + 1..].contains(a));
    }
    for n in &nodes.node {
        for m in &n.neighbors {
            assert!(all.contains(m), "{} lists {}", n.name, m);
        }
    }
}
