//! The state of a recipe run and how the application reacts to the user's
//! commands, the controller's connection and the end of a run; which tabs
//! are open in which state.
use vstd::prelude::*;
use crate::text::{append_str, copy_str, views};

verus! {

/// What the gantry is doing.
#[derive(Clone, Copy, Debug, PartialEq, Eq, Structural)]
pub enum RecipeState {
    Stopped,
    ManualRunning,
    RecipeRunning,
    RecipePaused,
    RequireInput,
    HomingManual,
    HomingRun,
}

/// What a worker thread does when it looks at the recipe state.
#[derive(Clone, Copy, Debug, PartialEq, Eq, Structural)]
pub enum Hold {
    /// The run was stopped: the worker ends.
    Stop,
    /// The run is paused or waits for the user: the worker blocks until
    /// the state changes.
    Wait,
    /// The worker carries on.
    Go,
}

/// The decision of a worker thread in state `s`.
pub open spec fn hold_of(s: RecipeState) -> Hold {
    match s {
        RecipeState::Stopped => Hold::Stop,
        RecipeState::RecipePaused => Hold::Wait,
        RecipeState::RequireInput => Hold::Wait,
        _ => Hold::Go,
    }
}

/// Whether a worker thread stops, waits or goes on in state `s`.
pub fn hold(s: RecipeState) -> (r: Hold)
    ensures
        r == hold_of(s),
{
    match s {
        RecipeState::Stopped => Hold::Stop,
        RecipeState::RecipePaused => Hold::Wait,
        RecipeState::RequireInput => Hold::Wait,
        _ => Hold::Go,
    }
}

/// Whether time spent waiting in state `s` is added to an action's timer
/// (a pause does not count against the action's time; waiting for input
/// does).
pub fn pause_extends_timer(s: RecipeState) -> (r: bool)
    ensures
        r == (s == RecipeState::RecipePaused),
{
    s == RecipeState::RecipePaused
}

/// The state while homing: homing during a recipe run is told apart from
/// homing under manual control.
pub fn homing_state(s: RecipeState) -> (r: RecipeState)
    ensures
        r == (if s == RecipeState::RecipeRunning {
            RecipeState::HomingRun
        } else {
            RecipeState::HomingManual
        }),
{
    if s == RecipeState::RecipeRunning {
        RecipeState::HomingRun
    } else {
        RecipeState::HomingManual
    }
}

/// The state after homing: the state saved before homing, unless the run
/// was stopped meanwhile.
pub fn after_homing(current: RecipeState, saved: RecipeState) -> (r: RecipeState)
    ensures
        r == (if current == RecipeState::Stopped { RecipeState::Stopped } else { saved }),
{
    if current == RecipeState::Stopped {
        RecipeState::Stopped
    } else {
        saved
    }
}

/// What reaches the application and changes the recipe state.
#[derive(Clone, Copy, Debug, PartialEq, Eq, Structural)]
pub enum AppEvent {
    /// The stop button of the manual tab.
    ManualStop,
    /// A destination button of the manual tab.
    ManualGo,
    /// A command typed into the manual tab's terminal.
    TerminalInput,
    /// The run button of the run tab.
    RunRecipe,
    /// The pause button of the run tab.
    Pause,
    /// The resume button of the run tab.
    Resume,
    /// The stop button of the run tab.
    RunStop,
    /// A run ended, with or without an error.
    RecipeDone,
    /// The controller stopped answering.
    ConnectionLost,
}

/// What the application does on an event.
#[derive(Clone, Copy, Debug, PartialEq, Eq, Structural)]
pub struct Reaction {
    /// The recipe state afterwards.
    pub state: RecipeState,
    /// A run (manual or recipe) is started.
    pub start_run: bool,
    /// The jog in progress is cancelled.
    pub cancel_jog: bool,
    /// The gantry's position becomes a temporary node.
    pub pause_node: bool,
}

/// The reaction to `e` in state `s`.
pub open spec fn reaction_of(s: RecipeState, e: AppEvent) -> Reaction {
    let same = Reaction { state: s, start_run: false, cancel_jog: false, pause_node: false };
    let stopped = Reaction {
        state: RecipeState::Stopped,
        start_run: false,
        cancel_jog: false,
        pause_node: false,
    };
    match e {
        AppEvent::ManualStop => if s == RecipeState::HomingManual || s == RecipeState::HomingRun {
            same
        } else {
            Reaction { cancel_jog: true, pause_node: true, ..stopped }
        },
        AppEvent::ManualGo => if s == RecipeState::Stopped {
            Reaction { state: RecipeState::ManualRunning, start_run: true, ..same }
        } else {
            same
        },
        AppEvent::TerminalInput => stopped,
        AppEvent::RunRecipe => if s == RecipeState::Stopped {
            Reaction { state: RecipeState::RecipeRunning, start_run: true, ..same }
        } else {
            same
        },
        AppEvent::Pause => Reaction {
            state: RecipeState::RecipePaused,
            start_run: false,
            cancel_jog: true,
            pause_node: false,
        },
        AppEvent::Resume => Reaction { state: RecipeState::RecipeRunning, ..same },
        AppEvent::RunStop => Reaction { cancel_jog: true, pause_node: true, ..stopped },
        AppEvent::RecipeDone => stopped,
        AppEvent::ConnectionLost => stopped,
    }
}

/// How the application reacts to `e` in state `s`.
pub fn react(s: RecipeState, e: AppEvent) -> (r: Reaction)
    ensures
        r == reaction_of(s, e),
{
    let same = Reaction { state: s, start_run: false, cancel_jog: false, pause_node: false };
    let stopped = Reaction {
        state: RecipeState::Stopped,
        start_run: false,
        cancel_jog: false,
        pause_node: false,
    };
    match e {
        AppEvent::ManualStop => {
            if s == RecipeState::HomingManual || s == RecipeState::HomingRun {
                same
            } else {
                Reaction { state: RecipeState::Stopped, start_run: false, cancel_jog: true, pause_node: true }
            }
        },
        AppEvent::ManualGo => {
            if s == RecipeState::Stopped {
                Reaction { state: RecipeState::ManualRunning, start_run: true, cancel_jog: false, pause_node: false }
            } else {
                same
            }
        },
        AppEvent::TerminalInput => stopped,
        AppEvent::RunRecipe => {
            if s == RecipeState::Stopped {
                Reaction { state: RecipeState::RecipeRunning, start_run: true, cancel_jog: false, pause_node: false }
            } else {
                same
            }
        },
        AppEvent::Pause => Reaction {
            state: RecipeState::RecipePaused,
            start_run: false,
            cancel_jog: true,
            pause_node: false,
        },
        AppEvent::Resume => Reaction { state: RecipeState::RecipeRunning, start_run: false, cancel_jog: false, pause_node: false },
        AppEvent::RunStop => Reaction { state: RecipeState::Stopped, start_run: false, cancel_jog: true, pause_node: true },
        AppEvent::RecipeDone => stopped,
        AppEvent::ConnectionLost => stopped,
    }
}

/// The application's main tabs.
#[derive(Clone, Copy, Debug, PartialEq, Eq, Structural)]
pub enum TabState {
    Manual,
    Run,
    Build,
    Advanced,
}

/// Whether a tab can be used in state `s`: manual control is closed while
/// a recipe runs, the run tab while manual control moves the gantry, the
/// advanced tab whenever the gantry may move.
pub open spec fn tab_open(tab: TabState, s: RecipeState) -> bool {
    match tab {
        TabState::Manual => !(s == RecipeState::RecipeRunning || s == RecipeState::RecipePaused
            || s == RecipeState::HomingRun),
        TabState::Run => !(s == RecipeState::ManualRunning || s == RecipeState::HomingManual),
        TabState::Build => true,
        TabState::Advanced => s == RecipeState::Stopped,
    }
}

/// The notice shown in place of a closed tab.
pub open spec fn notice_text(tab: TabState) -> Seq<char> {
    match tab {
        TabState::Manual => "Unavailable while running recipe"@,
        TabState::Run => "Unavailable while Manual control is active"@,
        _ => "Unavailable while GRBL in motion"@,
    }
}

/// The notice shown in place of a tab that cannot be used in state `s`;
/// `None` where the tab is shown.
pub fn tab_notice(tab: TabState, s: RecipeState) -> (r: Option<String>)
    ensures
        r is None <==> tab_open(tab, s),
        r matches Some(t) ==> t@ == notice_text(tab),
{
    match tab {
        TabState::Manual => {
            if s == RecipeState::RecipeRunning || s == RecipeState::RecipePaused
                || s == RecipeState::HomingRun {
                Some(copy_str("Unavailable while running recipe"))
            } else {
                None
            }
        },
        TabState::Run => {
            if s == RecipeState::ManualRunning || s == RecipeState::HomingManual {
                Some(copy_str("Unavailable while Manual control is active"))
            } else {
                None
            }
        },
        TabState::Build => None,
        TabState::Advanced => {
            if s == RecipeState::Stopped {
                None
            } else {
                Some(copy_str("Unavailable while GRBL in motion"))
            }
        },
    }
}

/// The lines of the screen shown while the controller cannot be reached.
pub open spec fn offline_lines() -> Seq<Seq<char>> {
    seq![
        "Unable to connect to GRBL."@,
        "Here are some things to check:"@,
        "1) GRBL is powered on."@,
        "2) The USB cable is connected between this computer and GRBL."@,
        "3) There are no other GRBL realted applications open on this PC."@,
        "4) You have asked GRBL to please work."@,
    ]
}

/// What the window shows.
pub enum Screen {
    /// The controller cannot be reached: these lines, whatever the tab.
    Offline(Vec<String>),
    /// The tab is closed in the current state: this notice in its place.
    Notice(String),
    /// The tab itself.
    Tab,
}

/// What the window shows for tab `tab` in state `s`: the offline screen
/// whenever the controller cannot be reached; else the tab's notice where
/// the tab is closed, and the tab where it is open.
pub fn screen_of(connected: bool, tab: TabState, s: RecipeState) -> (r: Screen)
    ensures
        !connected ==> (r matches Screen::Offline(ls) && views(ls@) == offline_lines()),
        connected && tab_open(tab, s) ==> r is Tab,
        connected && !tab_open(tab, s) ==> (r matches Screen::Notice(t) && t@ == notice_text(tab)),
{
    if !connected {
        let mut ls: Vec<String> = Vec::new();
        ls.push(copy_str("Unable to connect to GRBL."));
        ls.push(copy_str("Here are some things to check:"));
        ls.push(copy_str("1) GRBL is powered on."));
        ls.push(copy_str("2) The USB cable is connected between this computer and GRBL."));
        ls.push(copy_str("3) There are no other GRBL realted applications open on this PC."));
        ls.push(copy_str("4) You have asked GRBL to please work."));
        assert(views(ls@) =~= offline_lines());
        return Screen::Offline(ls);
    }
    match tab_notice(tab, s) {
        Some(t) => Screen::Notice(t),
        None => Screen::Tab,
    }
}

/// The name of the log file of a manual move to `node` started at `now`.
pub open spec fn manual_title(now: Seq<char>, node: Seq<char>) -> Seq<char> {
    now + "; Manual - Going to "@ + node
}

/// The reaction to a destination button pressed in state `s` at time
/// `now`, and the log file the move is written to where it starts: a move
/// starts only from the stopped state, and then logs to `manual_title`.
pub fn manual_go(s: RecipeState, now: &str, node: &str) -> (r: (Reaction, Option<String>))
    ensures
        r.0 == reaction_of(s, AppEvent::ManualGo),
        r.1 is Some <==> s == RecipeState::Stopped,
        r.1 matches Some(t) ==> t@ == manual_title(now@, node@),
{
    let reaction = react(s, AppEvent::ManualGo);
    if reaction.start_run {
        let mut t = copy_str(now);
        append_str(&mut t, "; Manual - Going to ");
        append_str(&mut t, node);
        (reaction, Some(t))
    } else {
        (reaction, None)
    }
}

/// A run starts only from the stopped state; stopping a run, its end and a
/// lost connection always leave the gantry stopped; the stop button of
/// manual control does not interrupt homing.
pub proof fn lemma_run_lifecycle(s: RecipeState, e: AppEvent)
    ensures
        reaction_of(s, e).start_run ==> s == RecipeState::Stopped,
        e == AppEvent::RunStop || e == AppEvent::RecipeDone || e == AppEvent::ConnectionLost
            ==> reaction_of(s, e).state == RecipeState::Stopped,
        e == AppEvent::ManualStop && (s == RecipeState::HomingManual || s == RecipeState::HomingRun)
            ==> reaction_of(s, e).state == s,
        reaction_of(s, e).state == RecipeState::Stopped ==> hold_of(reaction_of(s, e).state) == Hold::Stop,
{
}

/// While the gantry may move, the advanced tab is closed; while a recipe
/// runs, manual control is closed; while manual control moves the gantry,
/// the run tab is closed.
pub proof fn lemma_tabs_exclusive(s: RecipeState)
    ensures
        tab_open(TabState::Advanced, s) ==> s == RecipeState::Stopped,
        s == RecipeState::RecipeRunning ==> !tab_open(TabState::Manual, s),
        s == RecipeState::ManualRunning ==> !tab_open(TabState::Run, s),
        tab_open(TabState::Build, s),
{
}

/// The recipe state after the events `es`, one after the other, from `s`.
pub open spec fn state_after(s: RecipeState, es: Seq<AppEvent>) -> RecipeState
    decreases es.len(),
{
    if es.len() == 0 {
        s
    } else {
        reaction_of(state_after(s, es.drop_last()), es.last()).state
    }
}

/// Whether event `i` of `es`, from `s`, starts a run.
pub open spec fn starts_run(s: RecipeState, es: Seq<AppEvent>, i: int) -> bool {
    reaction_of(state_after(s, es.take(i)), es[i]).start_run
}

/// At most one run at a time: a run starts only from the stopped state and
/// leaves the gantry in a running state; once a run has started, no other
/// starts until an event after it has brought the state back to stopped.
pub proof fn lemma_one_run_at_a_time(s: RecipeState, es: Seq<AppEvent>, i: int, j: int)
    requires
        0 <= i < j < es.len(),
        starts_run(s, es, i),
        starts_run(s, es, j),
    ensures
        state_after(s, es.take(i)) == RecipeState::Stopped,
        state_after(s, es.take(i + 1)) == RecipeState::ManualRunning || state_after(s, es.take(i + 1))
            == RecipeState::RecipeRunning,
        exists|k: int| i < k < j && #[trigger] state_after(s, es.take(k + 1)) == RecipeState::Stopped,
{
    assert(es.take(i + 1).drop_last() =~= es.take(i));
    assert(es.take(i + 1).last() == es[i]);
    assert(state_after(s, es.take(j)) == RecipeState::Stopped);
    assert(j - 1 > i);
    assert(es.take(j - 1 + 1) =~= es.take(j));
}

} // verus!
