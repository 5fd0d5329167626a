use bathtub::run::{RunMessage, RunRecipe, RunState, RunTab, RunTabAction, Step};

fn s(v: &[&str]) -> Vec<String> {
    v.iter().map(|x| x.to_string()).collect()
}

fn step(num: &str, wait: bool) -> Step {
    Step {
        step_num: num.to_string(),
        selected_destination: "Tank".to_string(),
        selected_action: "Dip".to_string(),
        secs_value: "1".to_string(),
        mins_value: String::new(),
        hours_value: String::new(),
        hover: false,
        wait,
    }
}

fn recipe() -> RunRecipe {
    RunRecipe {
        before: s(&["Lot"]),
        after: s(&["Count"]),
        steps: vec![step("1", true), step("2", false), step("3", true)],
    }
}

#[test]
fn choosing_a_recipe_sets_up_its_inputs() {
    let mut t = RunTab::new();
    assert!(matches!(t.update(RunMessage::RecipieChanged("gold".to_string()), "D"), RunTabAction::Load));
    assert_eq!(t.search_value, Some("gold".to_string()));
    t.recipe_loaded(Some(recipe()));
    assert_eq!(t.continue_numbers, vec![Some(1), None, Some(2)]);
    assert_eq!(t.before_titles, s(&["Lot"]));
    assert_eq!(t.before_values, s(&[""]));
    assert_eq!(t.after_values, s(&[""]));
    t.update(RunMessage::Continue, "D");
    assert_eq!(t.continue_numbers, vec![Some(0), None, Some(1)]);
    t.recipe_loaded(None);
    assert!(t.recipe.is_none());
    assert_eq!(t.before_titles, s(&["Lot"]));
}

#[test]
fn a_run_starts_once_an_input_is_entered() {
    let mut t = RunTab::new();
    t.update(RunMessage::RecipieChanged("gold".to_string()), "D");
    t.recipe_loaded(Some(recipe()));
    t.update(RunMessage::LargeStart, "D");
    assert_eq!(t.state, RunState::BeforeRequiredInput);
    assert!(matches!(t.update(RunMessage::Start, "D"), RunTabAction::Nothing));
    assert_eq!(t.state, RunState::BeforeRequiredInput);
    t.update(RunMessage::RequiredBeforeInput(0, "A12".to_string()), "D");
    match t.update(RunMessage::Start, "Mon, 1 Jan 2024 10:00:00 +0000") {
        RunTabAction::StartRun(file, lines) => {
            assert_eq!(file, "Mon, 1 Jan 2024 10:00:00 +0000| Run - gold");
            assert_eq!(lines, s(&["Mon, 1 Jan 2024 10:00:00 +0000 => Lot: A12", "--------------------"]));
        }
        other => panic!("{:?}", other),
    }
    assert_eq!(t.state, RunState::Standard);
}

#[test]
fn a_run_finishes_with_its_after_inputs() {
    let mut t = RunTab::new();
    t.update(RunMessage::RecipieChanged("gold".to_string()), "D");
    t.recipe_loaded(Some(recipe()));
    t.finish_run();
    assert_eq!(t.state, RunState::AfterRequiredInput);
    assert!(matches!(t.update(RunMessage::Finish, "D"), RunTabAction::Nothing));
    t.update(RunMessage::RequiredAfterInput(0, "5".to_string()), "D");
    match t.update(RunMessage::Finish, "D") {
        RunTabAction::FinishRun(lines) => assert_eq!(lines, s(&["--------------------", "D => Count: 5"])),
        other => panic!("{:?}", other),
    }
    assert_eq!(t.state, RunState::Standard);
}

#[test]
fn cancelling_clears_the_before_inputs() {
    let mut t = RunTab::new();
    t.update(RunMessage::RecipieChanged("gold".to_string()), "D");
    t.recipe_loaded(Some(recipe()));
    t.update(RunMessage::LargeStart, "D");
    t.update(RunMessage::RequiredBeforeInput(0, "A12".to_string()), "D");
    t.update(RunMessage::Cancel, "D");
    assert_eq!(t.before_values, s(&[""]));
    assert_eq!(t.state, RunState::Standard);
    let mut empty = RunTab::new();
    empty.finish_run();
    assert_eq!(empty.state, RunState::Standard);
}
