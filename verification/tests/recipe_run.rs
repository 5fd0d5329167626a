use bathtub::actions::{Action, Actions};
use bathtub::recipe_run::{reply_line, RecipeRun, RunAction, RunEvent, WatchEnd};
use bathtub::run::Step;

fn step(num: &str, dest: &str, action: &str, secs: &str, hover: bool, wait: bool) -> Step {
    Step {
        step_num: num.to_string(),
        selected_destination: dest.to_string(),
        selected_action: action.to_string(),
        secs_value: secs.to_string(),
        mins_value: String::new(),
        hours_value: String::new(),
        hover,
        wait,
    }
}

fn actions() -> Actions {
    Actions {
        action: vec![
            Action { name: "Dip".to_string(), commands: vec!["G1 X1".to_string(), "WAIT".to_string()] },
            Action { name: "Shake".to_string(), commands: vec!["A".to_string(), "B".to_string()] },
        ],
    }
}

fn show(a: &RunAction) -> String {
    format!("{:?}", a)
}

/// Feeds the events in turn and checks each action asked for.
fn drive(run: &mut RecipeRun, first: RunAction, script: &[(RunEvent, &str)], first_expected: &str) {
    assert_eq!(show(&first), first_expected);
    for (event, expected) in script {
        let a = run.next(*event);
        assert_eq!(show(&a), *expected, "after {:?}", event);
    }
}

#[test]
fn a_waiting_action_runs_for_its_time() {
    let (mut run, first) = RecipeRun::start(vec![step("1", "Tank", "Dip", "1", false, false)], actions());
    drive(
        &mut run,
        first,
        &[
            (RunEvent::Done, "Hold"),
            (RunEvent::Held(false), "Log(\"Step 1) Going to Tank\")"),
            (RunEvent::Done, "Hold"),
            (RunEvent::Held(false), "SendPath(\"Tank\", \"1\")"),
            (RunEvent::PathSent(true), "WatchPath"),
            (RunEvent::Watched(WatchEnd::Emptied), "CheckArrived"),
            (RunEvent::Arrived(true), "Hold"),
            (RunEvent::Held(false), "Log(\"Step 1) starting Dip\")"),
            (RunEvent::Done, "DrainReplies(\"1\")"),
            (RunEvent::Drained(0), "Hold"),
            (RunEvent::Held(false), "Hold"),
            (RunEvent::Held(false), "Push(\"G1 X1\")"),
            (RunEvent::Done, "Hold"),
            (RunEvent::Held(false), "StartTimer"),
            (RunEvent::Done, "HoldTimed"),
            (RunEvent::HeldTimed(false, None), "Elapsed"),
            (RunEvent::Elapsed(500), "HoldTimed"),
            (RunEvent::HeldTimed(false, Some(600)), "Elapsed"),
            (RunEvent::Elapsed(1500), "HoldTimed"),
            (RunEvent::HeldTimed(false, None), "Elapsed"),
            (RunEvent::Elapsed(1700), "Push(\"\\u{85}\")"),
            (RunEvent::Done, "Log(\"Step 1) finished Dip\")"),
            (RunEvent::Done, "Finish"),
        ],
        "Announce(0)",
    );
}

#[test]
fn a_stop_at_the_operator_wait_ends_the_run() {
    let (mut run, first) = RecipeRun::start(
        vec![step("1", "Tank", "Dip", "1", false, true), step("2", "Rinse", "Dip", "1", false, false)],
        actions(),
    );
    drive(
        &mut run,
        first,
        &[
            (RunEvent::Done, "Log(\"Step 1) Waiting for user input\")"),
            (RunEvent::Done, "RequireInput"),
            (RunEvent::Done, "Hold"),
            (RunEvent::Held(true), "Log(\"Stopped By User\")"),
            (RunEvent::Done, "Finish"),
        ],
        "Announce(0)",
    );
}

#[test]
fn answered_commands_are_sent_again() {
    let (mut run, first) = RecipeRun::start(
        vec![step("3", "Tank", "Shake", "1", true, true), step("4", "Rinse", "Dip", "1", false, false)],
        actions(),
    );
    drive(
        &mut run,
        first,
        &[
            (RunEvent::Done, "Log(\"Step 3) Waiting for user input\")"),
            (RunEvent::Done, "RequireInput"),
            (RunEvent::Done, "Hold"),
            (RunEvent::Held(false), "Log(\"Step 3) User input received. Continuing.\")"),
            (RunEvent::Done, "Log(\"Step 3) Going to Tank\")"),
            (RunEvent::Done, "Hold"),
            (RunEvent::Held(false), "SendPath(\"Tank_hover\", \"3\")"),
            (RunEvent::PathSent(true), "WatchPath"),
            (RunEvent::Watched(WatchEnd::Paused), "PauseHere"),
            (RunEvent::Done, "CheckArrived"),
            (RunEvent::Arrived(false), "Hold"),
            (RunEvent::Held(false), "SendPath(\"Tank_hover\", \"3\")"),
            (RunEvent::PathSent(true), "WatchPath"),
            (RunEvent::Watched(WatchEnd::Emptied), "CheckArrived"),
            (RunEvent::Arrived(true), "Hold"),
            (RunEvent::Held(false), "Log(\"Step 3) starting Shake\")"),
            (RunEvent::Done, "DrainReplies(\"3\")"),
            (RunEvent::Drained(2), "Hold"),
            (RunEvent::Held(false), "Hold"),
            (RunEvent::Held(false), "Push(\"A\")"),
            (RunEvent::Done, "Hold"),
            (RunEvent::Held(false), "Push(\"B\")"),
            (RunEvent::Done, "StartTimer"),
            (RunEvent::Done, "HoldTimed"),
            (RunEvent::HeldTimed(false, None), "Elapsed"),
            (RunEvent::Elapsed(10), "DrainReplies(\"3\")"),
            (RunEvent::Drained(1), "HoldTimed"),
            (RunEvent::HeldTimed(false, None), "Elapsed"),
            (RunEvent::Elapsed(20), "DrainReplies(\"3\")"),
            (RunEvent::Drained(1), "HoldTimed"),
            (RunEvent::HeldTimed(false, None), "Log(\"Step 3) Sending action G-code 'A'\")"),
            (RunEvent::Done, "Push(\"A\")"),
            (RunEvent::Done, "HoldTimed"),
            (RunEvent::HeldTimed(false, None), "Log(\"Step 3) Sending action G-code 'B'\")"),
            (RunEvent::Done, "Push(\"B\")"),
            (RunEvent::Done, "HoldTimed"),
            (RunEvent::HeldTimed(true, None), "Log(\"Stopped By User\")"),
            (RunEvent::Done, "Announce(1)"),
            (RunEvent::Done, "Hold"),
            (RunEvent::Held(true), "Log(\"Stopped By User\")"),
            (RunEvent::Done, "Finish"),
        ],
        "Announce(0)",
    );
}

#[test]
fn a_missing_destination_skips_to_the_action() {
    let (mut run, first) = RecipeRun::start(vec![step("1", "Nowhere", "Dip", "", false, false)], actions());
    drive(
        &mut run,
        first,
        &[
            (RunEvent::Done, "Hold"),
            (RunEvent::Held(false), "Log(\"Step 1) Going to Nowhere\")"),
            (RunEvent::Done, "Hold"),
            (RunEvent::Held(false), "SendPath(\"Nowhere\", \"1\")"),
            (RunEvent::PathSent(false), "Hold"),
            (RunEvent::Held(true), "Log(\"Stopped By User\")"),
            (RunEvent::Done, "Finish"),
        ],
        "Announce(0)",
    );
}

#[test]
fn an_empty_recipe_finishes_at_once() {
    let (_run, first) = RecipeRun::start(Vec::new(), actions());
    assert_eq!(show(&first), "Finish");
}

#[test]
fn reply_lines_name_step_and_command() {
    assert_eq!(
        reply_line("Mon, 1 Jan 2024 10:00:00 +0000", "2", "G1 X1", "ok"),
        "Mon, 1 Jan 2024 10:00:00 +0000 => Step 2) G-code 'G1 X1' responded 'ok'"
    );
}
