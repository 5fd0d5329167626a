use bathtub::action_tab::{ActionTab, ActionTabMessage, CommandInputMessage, ConfigActionMessage};
use bathtub::actions::{action_commands, Action, Actions};
use bathtub::config::{
    neighbor_options, Boolean, ConfigNode, ConfigNodeMessage, NodeTab, NodeTabMessage,
    SaveBarMessage, StringPickListMessage,
};
use bathtub::editor::flatten_nodes;
use bathtub::naming::{contains_name, fresh_name};
use bathtub::nodes::{Node, Nodes};

fn node(name: &str, x: i64, hide: bool, neighbors: &[&str]) -> Node {
    Node {
        name: name.to_string(),
        x,
        y: 0,
        z: 0,
        hide,
        neighbors: neighbors.iter().map(|s| s.to_string()).collect(),
    }
}

fn s(v: &[&str]) -> Vec<String> {
    v.iter().map(|x| x.to_string()).collect()
}

fn graph() -> Nodes {
    Nodes {
        node: vec![
            node("HOME", 0, true, &["A"]),
            node("A", -1500, false, &["HOME", "B", "A_hover"]),
            node("A_hover", -1500, false, &["A"]),
            node("B", -3000, false, &["A"]),
        ],
    }
}

#[test]
fn fresh_names_number_from_two() {
    assert_eq!(fresh_name(&s(&["A"]), "New Node"), "New Node");
    assert_eq!(fresh_name(&s(&["New Node"]), "New Node"), "New Node #2");
    assert_eq!(fresh_name(&s(&["New Node", "New Node #2", "New Node #4"]), "New Node"), "New Node #3");
    assert!(contains_name(&s(&["x", "y"]), "y"));
    assert!(!contains_name(&s(&["x", "y"]), "z"));
}

#[test]
fn flattened_nodes_leave_out_hover_nodes() {
    let flat = flatten_nodes(&graph());
    let names: Vec<String> = flat.node.iter().map(|n| n.name.clone()).collect();
    assert_eq!(names, s(&["HOME", "A", "B"]));
    assert_eq!(flat.node[1].neighbors, s(&["HOME", "B"]));
}

#[test]
fn node_entries_write_coordinates_briefly() {
    let c = ConfigNode::new("A".to_string(), true, -1500, 0, 12345, s(&["B", "C", "B_hover"]));
    assert_eq!(c.x, "-1.5");
    assert_eq!(c.y, "0");
    assert_eq!(c.z, "12.345");
    assert_eq!(c.hide, Boolean::True);
    assert_eq!(c.neighbors.len(), 2);
    assert_eq!(c.neighbors[0].value, "B");
    assert_eq!(c.neighbors[0].parent, "A");
    assert_eq!(c.neighbors[0].siblings, s(&["C", "B_hover"]));
    assert!(!c.editing);
}

#[test]
fn node_tab_adds_a_node_with_a_fresh_name() {
    let mut tab = NodeTab::new(graph());
    assert_eq!(tab.config_nodes.len(), 3);
    assert!(!tab.unsaved);
    tab.update(NodeTabMessage::AddConfigNode);
    tab.update(NodeTabMessage::AddConfigNode);
    assert!(tab.unsaved);
    assert_eq!(tab.modified.node[3].name, "New Node");
    assert_eq!(tab.modified.node[4].name, "New Node #2");
    assert_eq!(tab.config_nodes[4].name, "New Node #2");
    assert_eq!(tab.config_nodes[4].x, "0");
}

#[test]
fn renaming_a_node_follows_every_choice_of_it() {
    let mut tab = NodeTab::new(graph());
    tab.update(NodeTabMessage::ConfigNode((1, ConfigNodeMessage::NameChanged("Bath".to_string()))));
    assert_eq!(tab.modified.node[1].name, "Bath");
    assert_eq!(tab.config_nodes[1].name, "Bath");
    assert_eq!(tab.config_nodes[1].neighbors[0].parent, "Bath");
    assert_eq!(tab.config_nodes[0].neighbors[0].value, "Bath");
    assert_eq!(tab.config_nodes[2].neighbors[0].value, "Bath");
    assert!(tab.unsaved);
}

#[test]
fn deleting_a_node_drops_choices_of_it() {
    let mut tab = NodeTab::new(graph());
    tab.update(NodeTabMessage::ConfigNode((2, ConfigNodeMessage::Delete)));
    assert_eq!(tab.config_nodes.len(), 2);
    assert_eq!(tab.modified.node.len(), 2);
    let values: Vec<String> = tab.config_nodes[1].neighbors.iter().map(|p| p.value.clone()).collect();
    assert_eq!(values, s(&["HOME"]));
    assert!(!tab.unsaved);
}

#[test]
fn editing_one_entry_confirms_the_others() {
    let mut tab = NodeTab::new(graph());
    tab.update(NodeTabMessage::ConfigNode((0, ConfigNodeMessage::Edit)));
    tab.update(NodeTabMessage::ConfigNode((0, ConfigNodeMessage::AddNeighbor)));
    assert_eq!(tab.config_nodes[0].neighbors.len(), 2);
    assert_eq!(tab.config_nodes[0].neighbors[1].value, "Choose Neighbor");
    assert_eq!(tab.config_nodes[0].neighbors[1].siblings, s(&["A"]));
    tab.update(NodeTabMessage::ConfigNode((1, ConfigNodeMessage::Edit)));
    assert!(!tab.config_nodes[0].editing);
    assert!(tab.config_nodes[1].editing);
    assert_eq!(tab.config_nodes[0].neighbors.len(), 1);
}

#[test]
fn changing_a_choice_updates_the_siblings() {
    let mut c = ConfigNode::new("A".to_string(), false, 0, 0, 0, s(&["B", "C"]));
    c.update(ConfigNodeMessage::Neighbors(0, StringPickListMessage::Changed("D".to_string())));
    assert_eq!(c.neighbors[0].value, "D");
    // each choice's siblings leave out the name it held before the change
    assert_eq!(c.neighbors[0].siblings, s(&["D", "C"]));
    assert_eq!(c.neighbors[1].siblings, s(&["D"]));
    c.update(ConfigNodeMessage::Neighbors(0, StringPickListMessage::Delete));
    assert_eq!(c.neighbors.len(), 1);
    assert_eq!(c.neighbors[0].value, "C");
    assert!(c.neighbors[0].siblings.is_empty());
    c.update(ConfigNodeMessage::XChanged("2.5".to_string()));
    c.update(ConfigNodeMessage::HideChanged(Boolean::True));
    assert_eq!(c.x, "2.5");
    assert_eq!(c.hide, Boolean::True);
}

#[test]
fn cancel_restores_and_save_stores_the_entries() {
    let mut tab = NodeTab::new(graph());
    tab.update(NodeTabMessage::AddConfigNode);
    tab.update(NodeTabMessage::SaveMessage(SaveBarMessage::Cancel));
    assert_eq!(tab.config_nodes.len(), 3);
    assert!(!tab.unsaved);
    tab.save(&vec![(0, 0, 0), (-1500, 0, 0), (-3000, 10, 0)]);
    assert_eq!(tab.saved.node.len(), 3);
    assert_eq!(tab.saved.node[2].name, "B");
    assert_eq!(tab.saved.node[2].y, 10);
    assert!(tab.saved.node[0].hide);
    assert_eq!(tab.saved.node[1].neighbors, s(&["HOME", "B"]));
    assert_eq!(tab.saved.node[2].neighbors, s(&["A"]));
}

#[test]
fn save_keeps_chosen_neighbours_only() {
    let mut tab = NodeTab::new(graph());
    tab.update(NodeTabMessage::ConfigNode((2, ConfigNodeMessage::Edit)));
    tab.update(NodeTabMessage::ConfigNode((2, ConfigNodeMessage::AddNeighbor)));
    tab.update(NodeTabMessage::ConfigNode((2, ConfigNodeMessage::AddNeighbor)));
    tab.update(NodeTabMessage::ConfigNode((
        2,
        ConfigNodeMessage::Neighbors(1, StringPickListMessage::Changed("HOME".to_string())),
    )));
    tab.save(&vec![(0, 0, 0), (-1500, 0, 0), (-3000, 0, 0)]);
    assert_eq!(tab.saved.node[2].neighbors, s(&["A", "HOME"]));
}

#[test]
fn neighbour_choices_offer_the_other_nodes() {
    let opts = neighbor_options(&graph(), "A", &s(&["B"]));
    assert!(opts.is_empty());
    let opts = neighbor_options(&graph(), "B", &Vec::new());
    assert_eq!(opts, s(&["A"]));
}

#[test]
fn boolean_choice() {
    assert_eq!(Boolean::default(), Boolean::False);
    assert_eq!(Boolean::True.text(), "True");
    assert_eq!(Boolean::of(false).text(), "False");
    assert_eq!(Boolean::all(), [Boolean::False, Boolean::True]);
    assert!(Boolean::True.value());
}

fn actions() -> Actions {
    Actions {
        action: vec![
            Action { name: "Rest".to_string(), commands: s(&["WAIT"]) },
            Action { name: "Dip".to_string(), commands: s(&["G1 Z-1", "G1 Z0"]) },
            Action { name: "Rest".to_string(), commands: s(&["G4 P1", "WAIT"]) },
        ],
    }
}

#[test]
fn the_last_action_of_a_name_counts() {
    assert_eq!(action_commands(&actions(), "Rest"), Some(s(&["G4 P1", "WAIT"])));
    assert_eq!(action_commands(&actions(), "Shake"), None);
}

#[test]
fn action_tab_edits_entries() {
    let mut tab = ActionTab::new(actions());
    tab.update(ActionTabMessage::AddConfigAction);
    assert_eq!(tab.modified.action[3].name, "New Action");
    tab.update(ActionTabMessage::ConfigAction(1, ConfigActionMessage::NameChanged("Dunk".to_string())));
    assert_eq!(tab.modified.action[1].name, "Dunk");
    assert_eq!(tab.config_actions[1].name, "Dunk");
    tab.update(ActionTabMessage::ConfigAction(1, ConfigActionMessage::AddCommand));
    tab.update(ActionTabMessage::ConfigAction(
        1,
        ConfigActionMessage::Commands(2, CommandInputMessage::InputChanged("G-code Command".to_string())),
    ));
    tab.update(ActionTabMessage::ConfigAction(1, ConfigActionMessage::Commands(0, CommandInputMessage::Delete)));
    assert_eq!(tab.config_actions[1].commands, s(&["G1 Z0", "G-code Command"]));
    // editing one entry confirms every entry, dropping placeholder commands
    tab.update(ActionTabMessage::ConfigAction(0, ConfigActionMessage::Edit));
    assert!(tab.config_actions[0].editing);
    assert_eq!(tab.config_actions[1].commands, s(&["G1 Z0"]));
    tab.update(ActionTabMessage::ConfigAction(0, ConfigActionMessage::Okay));
    assert!(!tab.config_actions[0].editing);
    tab.update(ActionTabMessage::ConfigAction(0, ConfigActionMessage::Delete));
    assert_eq!(tab.config_actions.len(), 3);
    assert_eq!(tab.modified.action.len(), 4);
    tab.update(ActionTabMessage::SaveMessage(SaveBarMessage::Cancel));
    assert_eq!(tab.config_actions.len(), 3);
    assert_eq!(tab.modified.action[1].name, "Dip");
    assert!(!tab.unsaved);
}
