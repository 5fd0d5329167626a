use bathtub::build_tab::{
    decrement_time, delete_step, increment_time, insert_step, move_step, recipe_name,
    recipe_options, save_log, sort_names, typed_time, validate_times, AddStep, AddStepMessage,
    Build, BuildAction, BuildMessage, BuildState, BuildStep, RequiredInputMessage, SaveInput,
    SaveRecipe, StepMessage,
};
use bathtub::config::SaveBarMessage;
use bathtub::run::Step;
use bathtub::style::Theme;

fn s(v: &[&str]) -> Vec<String> {
    v.iter().map(|x| x.to_string()).collect()
}

fn nodes() -> Vec<String> {
    s(&["HOME", "Rinse", "Dip"])
}

fn actions() -> Vec<String> {
    s(&["Wait", "Shake"])
}

fn step(num: usize, dest: &str) -> BuildStep {
    BuildStep::new(
        num,
        4,
        &nodes(),
        &actions(),
        Some(dest.to_string()),
        false,
        Some("Wait".to_string()),
        String::new(),
        "1".to_string(),
        String::new(),
        false,
    )
}

fn order(steps: &[BuildStep]) -> Vec<(usize, String)> {
    steps
        .iter()
        .map(|b| (b.step_num, b.selected_destination.clone().unwrap()))
        .collect()
}

fn list() -> Vec<BuildStep> {
    vec![step(1, "A"), step(2, "B"), step(3, "C"), step(4, "D")]
}

#[test]
fn typed_time_clamps_and_keeps() {
    assert_eq!(typed_time("75", "", 59), "59");
    assert_eq!(typed_time("120", "", 99), "99");
    assert_eq!(typed_time("7", "3", 59), "7");
    assert_eq!(typed_time("+7", "", 99), "7");
    assert_eq!(typed_time("abc", "12", 59), "12");
    assert_eq!(typed_time("1.5", "12", 59), "12");
    assert_eq!(typed_time("", "5", 59), "");
}

#[test]
fn counters_move_fields() {
    assert_eq!(increment_time("", 59), "1");
    assert_eq!(increment_time("58", 59), "59");
    assert_eq!(increment_time("59", 59), "59");
    assert_eq!(increment_time("x", 99), "1");
    assert_eq!(decrement_time("1"), "");
    assert_eq!(decrement_time("0"), "");
    assert_eq!(decrement_time(""), "");
    assert_eq!(decrement_time("10"), "9");
    assert_eq!(decrement_time("x"), "0");
}

#[test]
fn time_fields_checked() {
    assert!(validate_times(&"".to_string(), &"5".to_string(), &"59".to_string()));
    assert!(!validate_times(&"1.5".to_string(), &"".to_string(), &"".to_string()));
    assert!(!validate_times(&"".to_string(), &"-1".to_string(), &"".to_string()));
}

#[test]
fn new_step_flags_unknown_names() {
    let ok = step(1, "Rinse");
    assert!(!ok.errors.destination && !ok.errors.action && !ok.errors.time);
    assert_eq!(ok.error_message(), None);
    let bad = BuildStep::new(
        1,
        1,
        &nodes(),
        &actions(),
        Some("Tank".to_string()),
        false,
        None,
        "x".to_string(),
        String::new(),
        String::new(),
        false,
    );
    assert!(bad.errors.destination && bad.errors.action && bad.errors.time);
    assert_eq!(bad.errors.all(), vec![true, true, true]);
    assert_eq!(
        bad.error_message().unwrap(),
        "Selected destination not found in Nodes.\nEither select another destination, or go to\nAdvanced -> Nodes and rename/add a node with the name 'Tank'."
    );
}

#[test]
fn step_update_rechecks() {
    let mut b = step(1, "Tank");
    assert!(b.errors.destination);
    b.update(StepMessage::NewDestination("Dip".to_string()), &nodes(), &actions());
    assert!(!b.errors.destination);
    b.update(StepMessage::NewAction("Spin".to_string()), &nodes(), &actions());
    assert!(b.errors.action);
    assert_eq!(
        b.error_message().unwrap(),
        "Selected action not found.\nEither select another action, or go to\nAdvanced -> Actions and rename/add an action with the name 'Spin'."
    );
    b.update(StepMessage::HoursChanged("250".to_string()), &nodes(), &actions());
    assert_eq!(b.hours_value, "99");
    b.update(StepMessage::SecsIncrement, &nodes(), &actions());
    assert_eq!(b.secs_value, "1");
    b.update(StepMessage::MinsDecrement, &nodes(), &actions());
    assert_eq!(b.mins_value, "");
    b.update(StepMessage::Edit, &nodes(), &actions());
    assert!(b.editing);
    b.update(StepMessage::Okay, &nodes(), &actions());
    assert!(!b.editing);
}

#[test]
fn moving_a_step_up_reorders() {
    let mut l = list();
    move_step(&mut l, 3, 1);
    assert_eq!(
        order(&l),
        vec![(1, "D".to_string()), (2, "A".to_string()), (3, "B".to_string()), (4, "C".to_string())]
    );
}

#[test]
fn moving_a_step_down_reorders() {
    let mut l = list();
    move_step(&mut l, 0, 3);
    assert_eq!(
        order(&l),
        vec![(1, "B".to_string()), (2, "C".to_string()), (3, "A".to_string()), (4, "D".to_string())]
    );
    move_step(&mut l, 1, 2);
    assert_eq!(order(&l)[1], (2, "C".to_string()));
}

#[test]
fn deleting_renumbers() {
    let mut l = list();
    delete_step(&mut l, 1);
    assert_eq!(order(&l), vec![(1, "A".to_string()), (2, "C".to_string()), (3, "D".to_string())]);
    assert!(l.iter().all(|b| b.steps_len == 3));
}

#[test]
fn adding_inserts_at_its_number() {
    let mut l = list();
    insert_step(&mut l, step(2, "New"));
    assert_eq!(
        order(&l),
        vec![
            (1, "A".to_string()),
            (2, "New".to_string()),
            (3, "B".to_string()),
            (4, "C".to_string()),
            (5, "D".to_string())
        ]
    );
    assert!(l.iter().all(|b| b.steps_len == 5));
}

#[test]
fn recipe_names_listed_in_order() {
    assert_eq!(recipe_name("gold.toml"), Some("gold".to_string()));
    assert_eq!(recipe_name(".hidden"), None);
    assert_eq!(recipe_name("plain"), Some("plain".to_string()));
    assert_eq!(
        recipe_options(&s(&["b.toml", "a.toml", ".x", "B.toml", "ab"])),
        s(&["B", "a", "ab", "b"])
    );
    assert_eq!(sort_names(&s(&["b", "a", "ba", "b"])), s(&["a", "b", "b", "ba"]));
}

#[test]
fn add_step_fields() {
    let mut a = AddStep::new(1, 0, &actions());
    assert_eq!(a.selected_action, Some("Wait".to_string()));
    a.update(AddStepMessage::MinsChanged("90".to_string()));
    assert_eq!(a.mins_value, "59");
    a.update(AddStepMessage::NewDestination("Dip".to_string()));
    assert_eq!(a.destination_style, Theme::Blue);
    a.update(AddStepMessage::Add(None, false, None, Some(1), String::new(), String::new(), String::new(), false));
    assert_eq!(a.mins_value, "");
}

fn add_msg(dest: Option<&str>, num: usize) -> BuildMessage {
    BuildMessage::AddStepMessage(AddStepMessage::Add(
        dest.map(|d| d.to_string()),
        false,
        Some("Wait".to_string()),
        Some(num),
        String::new(),
        "2".to_string(),
        String::new(),
        false,
    ))
}

#[test]
fn builder_adds_and_guards_saving() {
    let mut b = Build::new(&actions());
    assert!(matches!(b.update(add_msg(None, 1), &nodes(), &actions()), BuildAction::Nothing));
    assert_eq!(b.add_step.destination_style, Theme::Red);
    b.update(add_msg(Some("Dip"), 1), &nodes(), &actions());
    b.update(add_msg(Some("Rinse"), 1), &nodes(), &actions());
    assert!(b.unsaved);
    assert_eq!(order(&b.modified_steps), vec![(1, "Rinse".to_string()), (2, "Dip".to_string())]);
    assert_eq!(b.add_step.step_num, 3);
    b.update(BuildMessage::StepMessage(0, StepMessage::Edit), &nodes(), &actions());
    b.update(BuildMessage::SaveMessage(SaveBarMessage::Save), &nodes(), &actions());
    assert_eq!(b.save_message, "'Ok' all steps before saving");
    b.update(BuildMessage::StepMessage(0, StepMessage::Okay), &nodes(), &actions());
    b.update(BuildMessage::SaveMessage(SaveBarMessage::Save), &nodes(), &actions());
    assert_eq!(b.state, BuildState::EnterName);
    assert_eq!(b.name_entry_value, "");
    b.update(BuildMessage::NameEntryChanged("a/b".to_string()), &nodes(), &actions());
    assert_eq!(b.name_entry_value, "");
    b.update(BuildMessage::NameEntryChanged("Gold plate".to_string()), &nodes(), &actions());
    assert_eq!(b.name_entry_value, "Gold plate");
    match b.update(BuildMessage::SaveWithName, &nodes(), &actions()) {
        BuildAction::CheckName(n) => assert_eq!(n, "Gold plate"),
        other => panic!("{:?}", other),
    }
    assert!(!b.name_checked(true));
    assert_eq!(b.state, BuildState::OverwriteConfirm);
}

#[test]
fn builder_inputs_and_choices() {
    let mut b = Build::new(&actions());
    b.update(BuildMessage::AddInputBefore, &nodes(), &actions());
    b.update(
        BuildMessage::BeforeRequiredInputMessage(0, RequiredInputMessage::InputChanged("Lot".to_string())),
        &nodes(),
        &actions(),
    );
    b.update(BuildMessage::AddInputBefore, &nodes(), &actions());
    assert_eq!(b.modified_before_inputs, s(&["Lot", ""]));
    b.update(BuildMessage::SearchChanged("gold".to_string()), &nodes(), &actions());
    assert_eq!(b.save_message, "Save or Cancel before changing recipe!");
    assert_eq!(b.search_value, None);
    b.update(BuildMessage::SaveMessage(SaveBarMessage::Cancel), &nodes(), &actions());
    assert!(!b.unsaved);
    assert!(b.modified_before_inputs.is_empty());
    match b.update(BuildMessage::SearchChanged("gold".to_string()), &nodes(), &actions()) {
        BuildAction::Load => {},
        other => panic!("{:?}", other),
    }
    match b.update(BuildMessage::DeleteConfirmed, &nodes(), &actions()) {
        BuildAction::Delete(n) => assert_eq!(n, "gold"),
        other => panic!("{:?}", other),
    }
    assert_eq!(b.search_value, None);
    b.recipes_listed(&s(&["z.toml", "m.toml"]));
    assert_eq!(b.search_options, s(&["m", "z"]));
}

fn recipe() -> SaveRecipe {
    SaveRecipe {
        required_inputs: SaveInput { before: Some(s(&["Lot"])), after: None },
        steps: Some(vec![
            Step {
                step_num: "7".to_string(),
                selected_destination: "Dip".to_string(),
                selected_action: "Wait".to_string(),
                secs_value: "30".to_string(),
                mins_value: String::new(),
                hours_value: String::new(),
                hover: false,
                wait: true,
            },
            Step {
                step_num: "9".to_string(),
                selected_destination: "Tank".to_string(),
                selected_action: "Shake".to_string(),
                secs_value: String::new(),
                mins_value: "1".to_string(),
                hours_value: String::new(),
                hover: true,
                wait: false,
            },
        ]),
    }
}

#[test]
fn loading_and_saving_a_recipe() {
    let mut b = Build::new(&actions());
    b.update(BuildMessage::SearchChanged("gold".to_string()), &nodes(), &actions());
    b.recipe_loaded(Some(recipe()), &nodes(), &actions());
    assert_eq!(order(&b.steps), vec![(1, "Dip".to_string()), (2, "Tank".to_string())]);
    assert!(b.steps[1].errors.destination);
    assert_eq!(b.before_inputs, s(&["Lot"]));
    assert!(b.after_inputs.is_empty());
    assert_eq!(b.add_step.step_num, 3);
    b.update(BuildMessage::AddInputAfter, &nodes(), &actions());
    b.update(BuildMessage::SaveMessage(SaveBarMessage::Save), &nodes(), &actions());
    assert_eq!(b.name_entry_value, "gold");
    let plan = b.save_on(false).unwrap();
    assert_eq!(plan.old_name, "gold");
    assert_eq!(plan.missing_old, "No old recipe 'gold' is new");
    assert_eq!(plan.name, "gold");
    assert_eq!(plan.recipe.required_inputs.before, Some(s(&["Lot"])));
    assert_eq!(plan.recipe.required_inputs.after, None);
    let steps = plan.recipe.steps.unwrap();
    assert_eq!(steps[0].step_num, "1");
    assert_eq!(steps[1].step_num, "2");
    assert_eq!(steps[1].selected_destination, "Tank");
    assert!(!b.unsaved);
    assert_eq!(b.state, BuildState::Steps);
    assert!(b.modified_after_inputs.is_empty());
    b.recipe_loaded(None, &nodes(), &actions());
    assert!(b.steps.is_empty() && b.modified_steps.is_empty());
}

#[test]
fn saving_cleans_the_name_and_without_name_clears() {
    let mut b = Build::new(&actions());
    b.update(BuildMessage::SaveMessage(SaveBarMessage::Save), &nodes(), &actions());
    b.name_entry_value = "a:b c".to_string();
    let plan = b.save_on(true).unwrap();
    assert_eq!(plan.name, "a_b c");
    assert_eq!(plan.probe_name, "a_bc");
    assert_eq!(plan.missing_old, "No old recipe 'a:b c' is new");
    assert_eq!(plan.old_name, "");
    assert_eq!(b.search_value, Some("a_b c".to_string()));
    assert!(plan.recipe.steps.is_none());
    let mut c = Build::new(&actions());
    c.update(BuildMessage::AddInputBefore, &nodes(), &actions());
    assert!(c.save_on(false).is_none());
    assert!(c.modified_before_inputs.is_empty());
}

#[test]
fn save_log_lines() {
    let changed = save_log("Mon, 1 Jan 2024 10:00:00 +0000", "gold", true, "old text", "new text");
    assert_eq!(changed.file, "Mon, 1 Jan 2024 10:00:00 +0000; Build - Changed 'gold'");
    assert_eq!(
        changed.lines,
        s(&["", "Recipe changed from:", "old text", "\n\n\nRecipe changed to:", "new text"])
    );
    let created = save_log("D", "gold", false, "x", "new text");
    assert_eq!(created.file, "D; Build - Created 'gold'");
    assert_eq!(created.lines, s(&["", "Created Recipe 'gold' as:", "new text"]));
}

#[test]
fn a_saved_recipe_reads_back() {
    let mut b = Build::new(&actions());
    b.update(add_msg(Some("Dip"), 1), &nodes(), &actions());
    b.update(add_msg(Some("Tank"), 2), &nodes(), &actions());
    b.update(BuildMessage::SaveMessage(SaveBarMessage::Save), &nodes(), &actions());
    b.update(BuildMessage::NameEntryChanged("gold".to_string()), &nodes(), &actions());
    let edited: Vec<(usize, String, String, bool)> = b
        .modified_steps
        .iter()
        .map(|s| (s.step_num, s.selected_destination.clone().unwrap(), s.mins_value.clone(), s.errors.destination))
        .collect();
    let plan = b.save_on(false).unwrap();
    let mut c = Build::new(&actions());
    c.recipe_loaded(Some(plan.recipe), &nodes(), &actions());
    let back: Vec<(usize, String, String, bool)> = c
        .steps
        .iter()
        .map(|s| (s.step_num, s.selected_destination.clone().unwrap(), s.mins_value.clone(), s.errors.destination))
        .collect();
    assert_eq!(back, edited);
    assert!(c.steps.iter().all(|s| !s.editing));
}
