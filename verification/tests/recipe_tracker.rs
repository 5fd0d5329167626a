use bathtub::nodes::{Node, Nodes};
use bathtub::recipe::{
    after_homing, hold, homing_state, manual_go, pause_extends_timer, react, screen_of, tab_notice,
    AppEvent, Hold, RecipeState, Screen, TabState,
};
use bathtub::tracker::{
    destination_name, jog_command, locate_node, move_text, path_send, path_text, NodeTracker,
};

fn node(name: &str, x: i64, y: i64, z: i64, neighbors: &[&str]) -> Node {
    Node {
        name: name.to_string(),
        x,
        y,
        z,
        hide: false,
        neighbors: neighbors.iter().map(|s| s.to_string()).collect(),
    }
}

#[test]
fn workers_stop_wait_or_go() {
    assert_eq!(hold(RecipeState::Stopped), Hold::Stop);
    assert_eq!(hold(RecipeState::RecipePaused), Hold::Wait);
    assert_eq!(hold(RecipeState::RequireInput), Hold::Wait);
    assert_eq!(hold(RecipeState::RecipeRunning), Hold::Go);
    assert_eq!(hold(RecipeState::HomingManual), Hold::Go);
    assert!(pause_extends_timer(RecipeState::RecipePaused));
    assert!(!pause_extends_timer(RecipeState::RequireInput));
}

#[test]
fn homing_remembers_what_it_interrupted() {
    assert_eq!(homing_state(RecipeState::RecipeRunning), RecipeState::HomingRun);
    assert_eq!(homing_state(RecipeState::ManualRunning), RecipeState::HomingManual);
    assert_eq!(after_homing(RecipeState::HomingRun, RecipeState::RecipeRunning), RecipeState::RecipeRunning);
    assert_eq!(after_homing(RecipeState::Stopped, RecipeState::RecipeRunning), RecipeState::Stopped);
}

#[test]
fn runs_start_only_when_stopped() {
    let r = react(RecipeState::Stopped, AppEvent::RunRecipe);
    assert_eq!(r.state, RecipeState::RecipeRunning);
    assert!(r.start_run);
    let r = react(RecipeState::ManualRunning, AppEvent::RunRecipe);
    assert_eq!(r.state, RecipeState::ManualRunning);
    assert!(!r.start_run);
    let r = react(RecipeState::Stopped, AppEvent::ManualGo);
    assert_eq!(r.state, RecipeState::ManualRunning);
    assert!(r.start_run);
}

#[test]
fn stop_cancels_the_jog_but_not_homing() {
    let r = react(RecipeState::RecipeRunning, AppEvent::RunStop);
    assert_eq!(r.state, RecipeState::Stopped);
    assert!(r.cancel_jog && r.pause_node);
    let r = react(RecipeState::HomingManual, AppEvent::ManualStop);
    assert_eq!(r.state, RecipeState::HomingManual);
    assert!(!r.cancel_jog);
    let r = react(RecipeState::RecipeRunning, AppEvent::Pause);
    assert_eq!(r.state, RecipeState::RecipePaused);
    assert!(r.cancel_jog && !r.pause_node);
    assert_eq!(react(RecipeState::RecipePaused, AppEvent::Resume).state, RecipeState::RecipeRunning);
    assert_eq!(react(RecipeState::RecipeRunning, AppEvent::ConnectionLost).state, RecipeState::Stopped);
    assert_eq!(react(RecipeState::RecipeRunning, AppEvent::RecipeDone).state, RecipeState::Stopped);
}

#[test]
fn tabs_close_while_the_gantry_moves() {
    assert_eq!(
        tab_notice(TabState::Manual, RecipeState::RecipeRunning),
        Some("Unavailable while running recipe".to_string())
    );
    assert_eq!(tab_notice(TabState::Manual, RecipeState::ManualRunning), None);
    assert_eq!(
        tab_notice(TabState::Run, RecipeState::HomingManual),
        Some("Unavailable while Manual control is active".to_string())
    );
    assert_eq!(
        tab_notice(TabState::Advanced, RecipeState::RecipePaused),
        Some("Unavailable while GRBL in motion".to_string())
    );
    assert_eq!(tab_notice(TabState::Advanced, RecipeState::Stopped), None);
    assert_eq!(tab_notice(TabState::Build, RecipeState::RecipeRunning), None);
}

#[test]
fn locate_finds_the_first_node_within_half_a_centimetre() {
    let nodes = Nodes {
        node: vec![node("A", 0, 0, 0, &[]), node("B", -10000, 0, 0, &[]), node("C", -10100, 0, 0, &[])],
    };
    assert_eq!(locate_node(&nodes, -10499, 0, 0), Some(1));
    assert_eq!(locate_node(&nodes, -10500, 0, 0), Some(2));
    assert_eq!(locate_node(&nodes, 0, 500, 0), None);
    assert_eq!(locate_node(&nodes, 0, 499, -499), Some(0));
}

#[test]
fn arrival_moves_the_tracker_along_its_path() {
    let mut t = NodeTracker::new(node("A", 0, 0, 0, &["B"]));
    t.next = vec![node("B", 0, 0, 0, &[]), node("C", 0, 0, 0, &[]), node("D", 0, 0, 0, &[])];
    let moved = t.arrive(&node("C", 0, 0, 0, &[]));
    assert!(moved);
    assert_eq!(t.prev.as_ref().unwrap().name, "A");
    assert_eq!(t.current.name, "C");
    let rest: Vec<String> = t.next.iter().map(|n| n.name.clone()).collect();
    assert_eq!(rest, vec!["C".to_string(), "D".to_string()]);
    assert!(!t.arrive(&node("C", 0, 0, 0, &[])));
}

#[test]
fn arrival_at_the_only_node_left_ends_the_path() {
    let mut t = NodeTracker::new(node("C", 0, 0, 0, &[]));
    t.next = vec![node("C", 0, 0, 0, &[])];
    assert!(!t.arrive(&node("C", 0, 0, 0, &[])));
    assert!(t.next.is_empty());
    assert!(t.path_done());
}

#[test]
fn a_stopped_gantry_becomes_a_paused_node() {
    let mut t = NodeTracker::new(node("A", 0, 0, 0, &["B"]));
    t.next = vec![node("B", 0, 0, 0, &[]), node("C", 0, 0, 0, &[])];
    t.set_pause_node(-1500, 250, 0);
    assert_eq!(t.current.name, "paused_node");
    assert!(t.current.hide);
    assert_eq!((t.current.x, t.current.y, t.current.z), (-1500, 250, 0));
    assert_eq!(t.current.neighbors, vec!["A".to_string(), "B".to_string()]);
    assert!(t.next.is_empty());
    assert!(!t.path_done());
    t.next = vec![node("B", 0, 0, 0, &[])];
    t.set_pause_node(0, 0, 0);
    assert_eq!(t.current.x, -1500);
    assert!(t.next.is_empty());
}

#[test]
fn a_paused_node_leads_to_the_node_after_the_current_one() {
    let mut t = NodeTracker::new(node("B", 0, 0, 0, &["A", "C"]));
    t.next = vec![node("B", 0, 0, 0, &[]), node("C", 0, 0, 0, &[])];
    t.set_pause_node(1, 2, 3);
    assert_eq!(t.current.neighbors, vec!["B".to_string(), "C".to_string()]);
}

#[test]
fn path_text_and_jog_commands() {
    let path = Nodes {
        node: vec![node("A", 0, 0, 0, &[]), node("B", 0, 0, 0, &[]), node("C", 0, 0, 0, &[])],
    };
    assert_eq!(path_text(&path), "A > B > C");
    assert_eq!(path_text(&Nodes { node: vec![] }), "");
    assert_eq!(jog_command(-1500, 2000, 0), "$J=X-1.5 Y2 Z0 F250");
    assert_eq!(jog_command(12345, -5, 100), "$J=X12.345 Y-0.005 Z0.1 F250");
    assert_eq!(destination_name("Bath 1", true), "Bath 1_hover");
    assert_eq!(destination_name("Bath 1", false), "Bath 1");
}


#[test]
fn one_run_at_a_time() {
    // a run starts from the stopped state only; a second start waits for a stop
    let mut s = RecipeState::Stopped;
    let mut starts = 0;
    for e in [
        AppEvent::ManualGo,
        AppEvent::RunRecipe,
        AppEvent::ManualGo,
        AppEvent::RecipeDone,
        AppEvent::RunRecipe,
        AppEvent::Pause,
        AppEvent::RunRecipe,
    ] {
        let r = react(s, e);
        if r.start_run {
            assert_eq!(s, RecipeState::Stopped);
            starts += 1;
        }
        s = r.state;
    }
    assert_eq!(starts, 2);
    assert_eq!(s, RecipeState::RecipePaused);
}

#[test]
fn path_send_logs_and_jogs_each_node() {
    let path = Nodes { node: vec![node("A", -1500, 0, -1000, &[]), node("B", -3000, 2000, 500, &[])] };
    let send = path_send("now", "3", &path);
    assert_eq!(
        send.lines,
        vec![
            "now => Step 3) on path A > B".to_string(),
            "now => Step 3) Sending pathing G-code '$J=X-1.5 Y0 Z-1 F250'".to_string(),
            "now => Step 3) Sending pathing G-code '$J=X-3 Y2 Z0.5 F250'".to_string(),
        ]
    );
    // the z of each node is jogged to and logged as z
    assert_eq!(send.commands, vec!["$J=X-1.5 Y0 Z-1 F250".to_string(), "$J=X-3 Y2 Z0.5 F250".to_string()]);
    let from = node("HOME", 0, 0, 0, &[]);
    assert_eq!(
        move_text("now", "3", &from, &path.node[1]),
        "now => Step 3) From HOME:(0,0,0) to B:(-3,2,0.5)"
    );
    let mut t = NodeTracker::new(from);
    t.follow(&path);
    assert_eq!(t.next.len(), 2);
    assert_eq!(t.next[1].name, "B");
}

#[test]
fn window_shows_offline_screen_notice_or_tab() {
    match screen_of(false, TabState::Build, RecipeState::Stopped) {
        Screen::Offline(lines) => {
            assert_eq!(lines.len(), 6);
            assert_eq!(lines[0], "Unable to connect to GRBL.");
        }
        _ => panic!("expected the offline screen"),
    }
    match screen_of(true, TabState::Advanced, RecipeState::RecipeRunning) {
        Screen::Notice(t) => assert_eq!(t, "Unavailable while GRBL in motion"),
        _ => panic!("expected a notice"),
    }
    assert!(matches!(screen_of(true, TabState::Advanced, RecipeState::Stopped), Screen::Tab));
}

#[test]
fn manual_move_starts_only_when_stopped() {
    let (r, title) = manual_go(RecipeState::Stopped, "Tue, 1 Jul 2003 10:52:37 +0200", "A");
    assert!(r.start_run);
    assert_eq!(r.state, RecipeState::ManualRunning);
    assert_eq!(title, Some("Tue, 1 Jul 2003 10:52:37 +0200; Manual - Going to A".to_string()));
    let (r, title) = manual_go(RecipeState::RecipeRunning, "now", "A");
    assert!(!r.start_run);
    assert_eq!(r.state, RecipeState::RecipeRunning);
    assert_eq!(title, None);
}
