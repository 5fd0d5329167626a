use bathtub::config::SaveBarMessage;
use bathtub::grbl::{build_info, date, next_command, parse_settings, parse_status, queue_command, response_text, take_all, Command};
use bathtub::grbl_tab::{GrblMessage, GrblSettingMessage, GrblTab};
use bathtub::recipe::{RecipeState, TabState};
use bathtub::run::{
    after_run_state, continue_numbers, continue_shown, inputs_allow, ns, run_controls,
    step_down, step_duration_ms, RunControls, RunState, Step,
};
use bathtub::style::{blue, red, tab_theme, yellow, Rgba, Theme};
use bathtub::text::{format_milli_fixed3, format_milli_short, parse_u128, split_lines};

fn s(v: &[&str]) -> Vec<String> {
    v.iter().map(|x| x.to_string()).collect()
}

const INFO: &str = "[VER:1.1h.20190825:]\r\n[OPT:V,15,128]\r\nok";

#[test]
fn version_and_build_date_come_from_the_info_reply() {
    let (v, d) = build_info(INFO);
    assert_eq!(v, Some("1.1h".to_string()));
    assert_eq!(d, Some("August 25, 2019".to_string()));
    assert_eq!(date("20200214"), "Febuary 14, 2020");
    assert_eq!(date("20191231 build"), "December 31, 2019");
    assert_eq!(build_info("ok"), (None, None));
}

#[test]
fn build_date_parts_are_taken_by_byte_position() {
    // bytes 4 to 6 hold one two-byte character: no month name
    assert_eq!(date("2020\u{e9}14"), " 14, 2020");
    assert_eq!(date("2020\u{e9}14x"), " 14, 2020");
}

#[test]
fn grbl_tab_loads_edits_and_saves_settings() {
    let mut tab = GrblTab::new();
    tab.load_info(INFO);
    assert_eq!(tab.version_line(), "Version: 1.1h");
    assert_eq!(tab.version_release_date, Some("August 25, 2019".to_string()));
    tab.load_settings("$0=10\r\n$1=25\nok\n");
    assert_eq!(tab.settings.len(), 2);
    assert_eq!(tab.settings[1].text, "$1");
    assert_eq!(tab.settings[1].input_value, "25");
    let sent = tab.update(GrblMessage::SettingChanged(1, GrblSettingMessage::TextChanged("30".to_string())));
    assert!(sent.is_empty());
    assert!(tab.unsaved);
    let sent = tab.update(GrblMessage::SaveMessage(SaveBarMessage::Save));
    assert_eq!(sent, s(&["$0=10", "$1=30"]));
    assert!(!tab.unsaved);
    assert_eq!(tab.update(GrblMessage::SaveMessage(SaveBarMessage::Cancel)), s(&["$$"]));
    assert_eq!(GrblTab::new().version_line(), "Version: ** Unavailable **");
}

#[test]
fn settings_listing_pairs_names_and_values() {
    let kv = parse_settings("$0=10\n$1=25=7\nno setting\n");
    assert_eq!(kv, vec![("$0".to_string(), "10".to_string()), ("$1".to_string(), "25".to_string())]);
}

#[test]
fn status_reports_are_read_in_thousandths() {
    let st = parse_status("<Idle|MPos:-1.000,-2.500,0.000|FS:0,0>").unwrap();
    assert_eq!(st.status, "Idle");
    assert_eq!((st.x, st.y, st.z), (-1000, -2500, 0));
    let st = parse_status("<Jog|MPos:12.3456,0,7.|FS:0,0>").unwrap();
    assert_eq!((st.x, st.y, st.z), (12345, 0, 7000));
    assert!(parse_status("ok").is_none());
}

#[test]
fn jog_cancel_empties_the_queue() {
    let mut q: Vec<Command> = Vec::new();
    queue_command(&mut q, Command::new("G0 X1\n".to_string()));
    queue_command(&mut q, Command::new("G0X2".to_string()));
    assert_eq!(q.len(), 2);
    assert_eq!(q[1].command, "G0X1");
    assert_eq!(next_command(&mut q).unwrap().command, "G0X1");
    queue_command(&mut q, Command::new("\u{85}".to_string()));
    assert_eq!(q.len(), 1);
    assert_eq!(q[0].command, "\u{85}");
    let mut buffer = vec![Command::new("a".to_string())];
    let all = take_all(&mut buffer);
    assert_eq!(all.len(), 1);
    assert!(buffer.is_empty());
    assert_eq!(response_text("$$", "$0=1\r\n".to_string()), "$0=1\r\n");
    assert_eq!(response_text("G0", "ok\r\n".to_string()), "ok");
}

fn step(h: &str, m: &str, sec: &str) -> Step {
    Step {
        step_num: "1".to_string(),
        selected_destination: "Bath".to_string(),
        selected_action: "Rinse".to_string(),
        secs_value: sec.to_string(),
        mins_value: m.to_string(),
        hours_value: h.to_string(),
        hover: false,
        wait: false,
    }
}

#[test]
fn step_texts_and_durations() {
    assert_eq!(step("", "", "").step_time_text(), "Rinse for 0 seconds");
    assert_eq!(step("", "2", "1").step_time_text(), "Rinse for 2 minutes and 1 second");
    assert_eq!(step("1", "2", "3").step_time_text(), "Rinse for 1 hour, 2 minutes and 3 seconds");
    let mut w = step("1", "", "");
    w.wait = true;
    assert_eq!(w.step_time_text(), "Wait for user input then\n Rinse for 1 hour");
    assert_eq!(step_duration_ms(&step("1", "2", "3")), Some(3723000));
    assert_eq!(step_duration_ms(&step("x", "", "5")), Some(5000));
    assert_eq!(ns(&"2".to_string()), "s");
    assert_eq!(ns(&"1".to_string()), "");
}

#[test]
fn run_tab_controls_and_inputs() {
    assert!(inputs_allow(&Vec::new()));
    assert!(inputs_allow(&s(&["", "x"])));
    assert!(!inputs_allow(&s(&["", ""])));
    assert_eq!(after_run_state(0), RunState::Standard);
    assert_eq!(after_run_state(2), RunState::AfterRequiredInput);
    assert_eq!(continue_numbers(&vec![false, true, true, false]), vec![None, Some(1), Some(2), None]);
    assert_eq!(step_down(0), 0);
    assert_eq!(step_down(3), 2);
    assert_eq!(run_controls(true, RecipeState::RecipeRunning), RunControls::StopPause);
    assert_eq!(run_controls(true, RecipeState::RequireInput), RunControls::StopWaiting);
    assert_eq!(run_controls(false, RecipeState::Stopped), RunControls::Nothing);
    assert!(continue_shown(1, RecipeState::RequireInput));
    assert!(!continue_shown(2, RecipeState::RequireInput));
}

#[test]
fn themes_and_styles() {
    assert_eq!(Theme::default(), Theme::Idle);
    assert_eq!(Theme::all().len(), 16);
    assert_eq!(tab_theme(TabState::Build, TabState::Build, true), Theme::YellowSelected);
    assert_eq!(tab_theme(TabState::Build, TabState::Run, true), Theme::Yellow);
    assert_eq!(tab_theme(TabState::Manual, TabState::Manual, true), Theme::TabSelected);
    assert_eq!(tab_theme(TabState::Run, TabState::Manual, false), Theme::Blue);
    let b = blue::Button.active();
    assert_eq!(b.background, Some(Rgba { r: 37, g: 171, b: 236, a: 255 }));
    assert_eq!(red::Container.style().border_width, 5);
    assert_eq!(Theme::Active.container_style(), Some(yellow::Tooltip.style()));
    assert_eq!(Theme::Blue.container_style(), None);
    assert_eq!(Theme::Red.button_styles(), Some((red::Button.active(), red::Button.hovered())));
    assert_eq!(blue::Checkbox.active(false).background, Rgba::opaque(255, 255, 255));
}

#[test]
fn numbers_in_text() {
    assert_eq!(format_milli_fixed3(-1500), "-1.500");
    assert_eq!(format_milli_short(2000), "2");
    assert_eq!(format_milli_short(-250), "-0.25");
    assert_eq!(parse_u128("+42"), Some(42));
    assert_eq!(parse_u128("4x"), None);
    assert_eq!(split_lines("a\r\nb\n\nc"), s(&["a", "b", "", "c"]));
}
