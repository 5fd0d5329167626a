use bathtub::grbl::Status;
use bathtub::log_tab::{
    date_prefix, keeps_result, log_time, order_logs, search_bar_message, search_bar_title,
    search_changed, sort_log_names, try_sort_log_names, Log, LogMessage, SearchStep,
};
use bathtub::logger::{
    hide_gcode_lines, log_header, log_matches, log_path, log_step, replace_os_char, replace_os_char_on,
    search_terms, set_log_file_message, LogStep, Logger,
};
use bathtub::manual::{
    classify_terminal_input, clean_terminal_input, initial_status, response_line, status_text,
    terminal_reply, TerminalInput,
};

fn s(v: &[&str]) -> Vec<String> {
    v.iter().map(|x| x.to_string()).collect()
}

#[test]
fn log_names_start_with_their_date() {
    assert_eq!(date_prefix("Tue, 1 Jul 2003 10:52:37 +0200| Run - Rinse"), Some("Tue, 1 Jul 2003 10:52:37 +0200".to_string()));
    assert_eq!(date_prefix("||abc|def"), Some("abc".to_string()));
    assert_eq!(date_prefix("|||"), None);
    assert_eq!(log_time("Tue, 1 Jul 2003 10:52:37 +0200| Run - Rinse"), Some(1057049557));
    assert_eq!(log_time("not a date| x"), None);
}

#[test]
fn logs_are_listed_newest_first() {
    let logs = vec![("a".to_string(), 5), ("b".to_string(), 9), ("c".to_string(), 5), ("d".to_string(), 1)];
    assert_eq!(order_logs(logs), s(&["b", "a", "c", "d"]));
    let many: Vec<(String, i64)> = (0..150).map(|i| (format!("{}", i), i as i64)).collect();
    let shown = order_logs(many);
    assert_eq!(shown.len(), 100);
    assert_eq!(shown[0], "149");
    assert_eq!(shown[99], "50");
}

#[test]
fn log_files_sort_by_the_date_in_their_names() {
    let names = s(&[
        "Tue, 1 Jul 2003 10:52:37 +0200| Run - Rinse",
        "Wed, 2 Jul 2003 10:52:37 +0200| Run - Soak",
        "Tue, 1 Jul 2003 09:52:37 +0200| Run - Dry",
    ]);
    let newest_first = s(&[
        "Wed, 2 Jul 2003 10:52:37 +0200| Run - Soak",
        "Tue, 1 Jul 2003 10:52:37 +0200| Run - Rinse",
        "Tue, 1 Jul 2003 09:52:37 +0200| Run - Dry",
    ]);
    assert_eq!(sort_log_names(&names), newest_first);
    assert_eq!(try_sort_log_names(&names), Some(newest_first));
    assert_eq!(try_sort_log_names(&s(&["nonsense"])), None);
    // a name whose text before the first `|` is more than a date has no date
    assert_eq!(try_sort_log_names(&s(&["Wed, 2 Jul 2003 10:52:37 +0200; Manual - Going to A"])), None);
}

#[test]
fn search_bars_grow_and_shrink() {
    let mut bars = s(&[""]);
    assert_eq!(search_changed(&mut bars, 0, "rinse".to_string()), SearchStep::Search);
    assert_eq!(bars, s(&["rinse", ""]));
    assert_eq!(search_changed(&mut bars, 1, "bath".to_string()), SearchStep::Search);
    assert_eq!(bars, s(&["rinse", "bath", ""]));
    assert_eq!(search_changed(&mut bars, 1, "".to_string()), SearchStep::Search);
    assert_eq!(bars, s(&["rinse", ""]));
    assert_eq!(search_changed(&mut bars, 0, "".to_string()), SearchStep::Reload);
    assert_eq!(bars, s(&[""]));
    assert_eq!(search_bar_title(0), "Contains:");
    assert_eq!(search_bar_title(2), "and:");
    assert_eq!(search_bar_message(0), "Search");
    assert_eq!(search_bar_message(1), "Search term 2 (Optional)");
}

#[test]
fn search_results_are_kept_for_the_current_terms() {
    assert!(keeps_result(3, &s(&["a", "b"]), &s(&["a", "b", ""])));
    assert!(!keeps_result(3, &s(&["a", "c"]), &s(&["a", "b", ""])));
    assert!(!keeps_result(101, &s(&["a"]), &s(&["a"])));
    assert!(keeps_result(100, &s(&["a"]), &s(&["a"])));
    // the bars are compared in lower case, as the terms were searched
    assert!(keeps_result(3, &s(&["probe", "a"]), &s(&["Probe", "A"])));
    assert!(!keeps_result(3, &s(&["Probe"]), &s(&["Probe"])));
}

#[test]
fn opening_a_log_hides_gcode_lines_first() {
    let file = "10:00 => Step 1) Going to A\n10:01 => Step 1) G-code 'G1' responded 'ok'\n10:02 => Done".to_string();
    let mut log = Log::new("x.log".to_string());
    log.update(LogMessage::ToggleView, Some(file.clone()));
    assert!(log.opened);
    assert_eq!(log.content, "10:00 => Step 1) Going to A\n10:02 => Done\n");
    log.update(LogMessage::ToggleGcode(false), Some(file.clone()));
    assert!(!log.hide_gcode);
    assert_eq!(log.content, file);
    log.update(LogMessage::ToggleView, None);
    assert!(!log.opened);
    log.update(LogMessage::ToggleView, None);
    assert_eq!(log.content, "Error: Unable to read file x.log!");
}

#[test]
fn logger_messages_and_steps() {
    assert_eq!(set_log_file_message("today"), "today\n\rset_log_file");
    assert_eq!(log_path("today"), "./logs/today");
    match log_step(false, "current", "today\n\rset_log_file".to_string(), false, None) {
        LogStep::SetFile(f) => assert_eq!(f, "today"),
        _ => panic!("expected a new file"),
    }
    match log_step(false, "current", "a line".to_string(), true, None) {
        LogStep::Append { path, lines } => {
            assert_eq!(path, "./logs/current");
            assert_eq!(lines, vec!["a line".to_string()]);
        }
        _ => panic!("expected a line"),
    }
    // a file that does not exist yet gets its header, then the line
    match log_step(true, "a:b", "x|y".to_string(), false, Some("ann".to_string())) {
        LogStep::Append { path, lines } => {
            assert_eq!(path, "./logs/a:b");
            assert_eq!(
                lines,
                vec![
                    "a:b".to_string(),
                    "Created by Operating System User: ann".to_string(),
                    "--------------------".to_string(),
                    "x_y".to_string(),
                ]
            );
        }
        _ => panic!("expected a line"),
    }
    match log_step(false, "f", "y".to_string(), false, None) {
        LogStep::Append { lines, .. } => assert_eq!(lines[1], "Created by Operating System User: **Unavailable**"),
        _ => panic!("expected a line"),
    }
    assert_eq!(replace_os_char_on(true, "Tue, 1 Jul 2003 10:52:37 +0200| Run".to_string()), "Tue, 1 Jul 2003 10_52_37 +0200_ Run");
    assert_eq!(replace_os_char_on(false, "a:b|c".to_string()), "a:b|c");
    let header = log_header("f", Some("ann".to_string()));
    assert_eq!(header[0], "f");
    assert_eq!(header[1], "Created by Operating System User: ann");
}

#[test]
fn logger_hands_lines_to_its_channel() {
    let (tx, rx) = std::sync::mpsc::channel();
    let mut logger = Logger::from_sender(tx);
    logger.send_line("hello".to_string()).unwrap();
    logger.set_log_file("next".to_string()).unwrap();
    assert_eq!(rx.recv().unwrap(), "hello");
    assert_eq!(rx.recv().unwrap(), "next\n\rset_log_file");
    drop(rx);
    assert_eq!(logger.send_line("lost".to_string()), Err("lost".to_string()));
    assert_eq!(logger.set_log_file("gone".to_string()), Err("gone\n\rset_log_file".to_string()));
}

#[test]
fn log_search_is_case_blind() {
    let terms = search_terms(&s(&["RiNsE", "Bath"]));
    assert_eq!(terms, s(&["rinse", "bath"]));
    assert!(log_matches(&terms, "Step 1) Going to BATH 2 to rinse"));
    assert!(!log_matches(&terms, "Step 1) Going to BATH 2"));
    assert_eq!(hide_gcode_lines("a\nG-code b\nc"), "a\nc\n");
}

#[test]
fn terminal_commands_are_cleaned_and_sorted() {
    assert_eq!(clean_terminal_input("g0 x1\n"), "G0X1");
    assert_eq!(classify_terminal_input("?"), TerminalInput::StatusQuery);
    assert_eq!(classify_terminal_input("M3"), TerminalInput::Unsupported);
    assert_eq!(classify_terminal_input("$G"), TerminalInput::Unsupported);
    assert_eq!(classify_terminal_input("$$"), TerminalInput::Settings);
    assert_eq!(classify_terminal_input("G0X1"), TerminalInput::Send);
    assert_eq!(terminal_reply("T", "G0X1"), None);
    assert_eq!(terminal_reply("T", "M3"), Some("T| 'M3' => Command not supported by Bathtub.".to_string()));
    assert_eq!(
        terminal_reply("T", "$I"),
        Some("T| '$I' => View and edit settings withing Bathtub! Advanced Tab => Grbl ;)".to_string())
    );
    assert_eq!(
        terminal_reply("T", "?"),
        Some("T| => '?' Status command not available. Look at GUI above ;)".to_string())
    );
    assert_eq!(response_line("T", "G0X1", "ok"), "T| 'G0X1' => ok");
}

#[test]
fn status_line_shows_three_decimals() {
    let st = Status { status: "Idle".to_string(), x: -1500, y: 25, z: 0 };
    assert_eq!(status_text(&st), "Idle state at\n(-1.500, 0.025, 0.000)");
    assert_eq!(initial_status(), "Click any button\nto start homing cycle");
}

#[test]
fn file_names_cleaned_for_this_platform() {
    let r = replace_os_char("a:b|c".to_string());
    assert!(r == "a_b_c" || r == "a:b|c");
    if std::path::MAIN_SEPARATOR == '\\' {
        assert_eq!(r, "a_b_c");
    } else {
        assert_eq!(r, "a:b|c");
    }
}
