//! Running a recipe, step by step: for each step, waiting for the operator
//! where it asks for it, going to its destination (again after a pause),
//! then running its action for the step's time, repeating the action's
//! commands as they are answered. The run asks its surroundings for one
//! thing at a time (a log line, a hold on the shared state, a path sent, a
//! command pushed, the time elapsed) and is told what came of it.
use vstd::prelude::*;
use crate::actions::{action_commands, commands_of, ActionView, Actions};
use crate::run::{step_millis, Step, StepRecord};
use crate::text::{append_str, concat, copy_str, str_eq, views};
use crate::tracker::destination_name;
use crate::nodes::hover_suffix;

verus! {

/// Where the run stands: what it last asked for and waits to hear about.
#[derive(Clone, Copy, Debug, PartialEq, Eq, Structural)]
pub enum RunStage {
    StepStart,
    WaitLogged,
    InputRequested,
    FirstHold,
    InputLogged,
    GoingLogged,
    PathHold,
    PathSending,
    Watching,
    Pausing,
    Checking,
    DurationHold,
    StartingLogged,
    FirstDrain,
    CommandsHold,
    CommandHold,
    Pushed,
    CommandStopLogged,
    TimerStarted,
    TimerHold,
    Timing,
    FeedHoldPushed,
    FinishedLogged,
    TimerStopLogged,
    Draining,
    ResendHold,
    ResendLogged,
    ResendPushed,
    ResendStopLogged,
    Stopping,
    Done,
}

/// How watching the gantry follow its path ended.
#[derive(Clone, Copy, Debug, PartialEq, Eq, Structural)]
pub enum WatchEnd {
    /// The path was followed to its end.
    Emptied,
    /// The run was stopped.
    Stopped,
    /// The run was paused.
    Paused,
}

/// What came of what the run asked for.
#[derive(Clone, Copy, Debug, PartialEq, Eq, Structural)]
pub enum RunEvent {
    /// It was done.
    Done,
    /// The hold ended: stopped (`true`) or running.
    Held(bool),
    /// The timed hold ended: stopped or running, and how long a pause
    /// lasted, in milliseconds, where there was one.
    HeldTimed(bool, Option<u128>),
    /// Whether the destination was found and a path sent to it.
    PathSent(bool),
    /// How watching the path ended.
    Watched(WatchEnd),
    /// Whether the gantry has finished its path.
    Arrived(bool),
    /// How many controller replies were taken (and logged).
    Drained(usize),
    /// The milliseconds since the action's timer started.
    Elapsed(u128),
}

/// What the run asks of its surroundings.
#[derive(Debug)]
pub enum RunAction {
    /// Show step `k` (counted from zero) as the current one.
    Announce(usize),
    /// Write a line to the log (after the time).
    Log(String),
    /// Make the shared state "waiting for the operator".
    RequireInput,
    /// Hold while the run is paused or waits for the operator; tell
    /// whether it was stopped.
    Hold,
    /// The same, also telling how long a pause lasted.
    HoldTimed,
    /// Send a path from the gantry's node to the node of this name, for
    /// the step of this number; tell whether the node was found.
    SendPath(String, String),
    /// Watch the gantry follow its path until it ends, the run stops or the
    /// run pauses.
    WatchPath,
    /// Stop the gantry where it is and make that place the current node.
    PauseHere,
    /// Tell whether the gantry has finished its path.
    CheckArrived,
    /// Take the controller's replies and log them for the step of this
    /// number; tell how many there were.
    DrainReplies(String),
    /// Push this command to the controller.
    Push(String),
    /// Start the action's timer.
    StartTimer,
    /// Tell the milliseconds since the action's timer started.
    Elapsed,
    /// The run is over.
    Finish,
}

/// The mathematical value of a run action.
pub enum RunActionView {
    Announce(nat),
    Log(Seq<char>),
    RequireInput,
    Hold,
    HoldTimed,
    SendPath(Seq<char>, Seq<char>),
    WatchPath,
    PauseHere,
    CheckArrived,
    DrainReplies(Seq<char>),
    Push(Seq<char>),
    StartTimer,
    Elapsed,
    Finish,
}

/// The value of a run action.
pub open spec fn run_action_view(a: RunAction) -> RunActionView {
    match a {
        RunAction::Announce(k) => RunActionView::Announce(k as nat),
        RunAction::Log(l) => RunActionView::Log(l@),
        RunAction::RequireInput => RunActionView::RequireInput,
        RunAction::Hold => RunActionView::Hold,
        RunAction::HoldTimed => RunActionView::HoldTimed,
        RunAction::SendPath(t, n) => RunActionView::SendPath(t@, n@),
        RunAction::WatchPath => RunActionView::WatchPath,
        RunAction::PauseHere => RunActionView::PauseHere,
        RunAction::CheckArrived => RunActionView::CheckArrived,
        RunAction::DrainReplies(n) => RunActionView::DrainReplies(n@),
        RunAction::Push(c) => RunActionView::Push(c@),
        RunAction::StartTimer => RunActionView::StartTimer,
        RunAction::Elapsed => RunActionView::Elapsed,
        RunAction::Finish => RunActionView::Finish,
    }
}

/// The mathematical value of a run.
pub struct RunView {
    pub steps: Seq<StepRecord>,
    pub actions: Seq<ActionView>,
    pub step: nat,
    pub stage: RunStage,
    pub send_path: bool,
    pub command: nat,
    pub queued: nat,
    pub waits: bool,
    pub paused_ms: nat,
    pub duration_ms: nat,
}

/// A recipe being run: its steps and the actions they name, the step at
/// hand and the stage it is at, whether a path is still to be sent, the
/// action command at hand, how many sent commands are unanswered, whether
/// the action waits, the paused time of the action and its duration.
#[derive(Debug)]
pub struct RecipeRun {
    pub steps: Vec<Step>,
    pub actions: Actions,
    pub step: usize,
    pub stage: RunStage,
    pub send_path: bool,
    pub command: usize,
    pub queued: usize,
    pub waits: bool,
    pub paused_ms: u128,
    pub duration_ms: u128,
}

impl View for RecipeRun {
    type V = RunView;

    open spec fn view(&self) -> RunView {
        RunView {
            steps: self.steps@.map_values(|s: Step| s@),
            actions: self.actions@,
            step: self.step as nat,
            stage: self.stage,
            send_path: self.send_path,
            command: self.command as nat,
            queued: self.queued as nat,
            waits: self.waits,
            paused_ms: self.paused_ms as nat,
            duration_ms: self.duration_ms as nat,
        }
    }
}

/// The step at hand.
pub open spec fn current(v: RunView) -> StepRecord {
    v.steps[v.step as int]
}

/// A log line of the step at hand: `Step {number}) {text}`.
pub open spec fn step_line(v: RunView, text: Seq<char>) -> Seq<char> {
    "Step "@ + current(v).step_num + ") "@ + text
}

/// The log line of a stop.
pub open spec fn stopped_line() -> Seq<char> {
    "Stopped By User"@
}

/// The node the step at hand goes to.
pub open spec fn target_of(v: RunView) -> Seq<char> {
    if current(v).hover {
        current(v).destination + hover_suffix()
    } else {
        current(v).destination
    }
}

/// The commands of the action of the step at hand.
pub open spec fn commands(v: RunView) -> Seq<Seq<char>> {
    match commands_of(v.actions, current(v).action) {
        Some(c) => c,
        None => Seq::empty(),
    }
}

/// The action's run time, less its pauses (none where the pauses took
/// longer).
pub open spec fn effective_ms(raw: nat, paused: nat) -> nat {
    if raw >= paused {
        (raw - paused) as nat
    } else {
        0
    }
}

/// The count of unanswered commands after `n` replies.
pub open spec fn after_replies(queued: nat, n: nat) -> nat {
    if queued >= n {
        (queued - n) as nat
    } else {
        0
    }
}

/// Starting step `k`: announced where there is one, else the run is over.
pub open spec fn begin_step(v: RunView, k: nat) -> (RunView, RunActionView) {
    if k < v.steps.len() {
        (RunView { step: k, stage: RunStage::StepStart, ..v }, RunActionView::Announce(k))
    } else {
        (RunView { stage: RunStage::Done, ..v }, RunActionView::Finish)
    }
}

/// Leaving the path loop: the step's time is taken and the run holds.
pub open spec fn leave_path(v: RunView) -> (RunView, RunActionView) {
    (
        RunView {
            stage: RunStage::DurationHold,
            duration_ms: step_millis(current(v).hours, current(v).mins, current(v).secs) as nat,
            ..v
        },
        RunActionView::Hold,
    )
}

/// Taking up command `j` of the action: a hold before it, or the timer
/// where all were taken.
pub open spec fn command_at(v: RunView, j: nat) -> (RunView, RunActionView) {
    if j < commands(v).len() {
        (RunView { stage: RunStage::CommandHold, command: j, ..v }, RunActionView::Hold)
    } else {
        (RunView { stage: RunStage::TimerStarted, ..v }, RunActionView::StartTimer)
    }
}

/// Sending command `r` of the action again: a timed hold before it, or
/// back to the timer where all were sent.
pub open spec fn resend_at(v: RunView, r: nat) -> (RunView, RunActionView) {
    if r < commands(v).len() {
        (RunView { stage: RunStage::ResendHold, command: r, ..v }, RunActionView::HoldTimed)
    } else {
        (RunView { stage: RunStage::TimerHold, ..v }, RunActionView::HoldTimed)
    }
}

/// The run after event `e`, and what it asks for next.
pub open spec fn run_next(v: RunView, e: RunEvent) -> (RunView, RunActionView) {
    match v.stage {
        RunStage::StepStart => if current(v).wait {
            (
                RunView { stage: RunStage::WaitLogged, ..v },
                RunActionView::Log(step_line(v, "Waiting for user input"@)),
            )
        } else {
            (RunView { stage: RunStage::FirstHold, ..v }, RunActionView::Hold)
        },
        RunStage::WaitLogged => (RunView { stage: RunStage::InputRequested, ..v }, RunActionView::RequireInput),
        RunStage::InputRequested => (RunView { stage: RunStage::FirstHold, ..v }, RunActionView::Hold),
        RunStage::FirstHold => if e == RunEvent::Held(true) {
            (RunView { stage: RunStage::Stopping, ..v }, RunActionView::Log(stopped_line()))
        } else if current(v).wait {
            (
                RunView { stage: RunStage::InputLogged, ..v },
                RunActionView::Log(step_line(v, "User input received. Continuing."@)),
            )
        } else {
            (
                RunView { stage: RunStage::GoingLogged, ..v },
                RunActionView::Log(step_line(v, "Going to "@ + current(v).destination)),
            )
        },
        RunStage::InputLogged => (
            RunView { stage: RunStage::GoingLogged, ..v },
            RunActionView::Log(step_line(v, "Going to "@ + current(v).destination)),
        ),
        RunStage::GoingLogged => (RunView { stage: RunStage::PathHold, send_path: true, ..v }, RunActionView::Hold),
        RunStage::PathHold => if e == RunEvent::Held(true) {
            leave_path(v)
        } else if v.send_path {
            (
                RunView { stage: RunStage::PathSending, ..v },
                RunActionView::SendPath(target_of(v), current(v).step_num),
            )
        } else {
            (RunView { stage: RunStage::Watching, ..v }, RunActionView::WatchPath)
        },
        RunStage::PathSending => if e == RunEvent::PathSent(false) {
            leave_path(v)
        } else {
            (RunView { stage: RunStage::Watching, send_path: false, ..v }, RunActionView::WatchPath)
        },
        RunStage::Watching => if e == RunEvent::Watched(WatchEnd::Paused) {
            (RunView { stage: RunStage::Pausing, ..v }, RunActionView::PauseHere)
        } else {
            (RunView { stage: RunStage::Checking, ..v }, RunActionView::CheckArrived)
        },
        RunStage::Pausing => (RunView { stage: RunStage::Checking, send_path: true, ..v }, RunActionView::CheckArrived),
        RunStage::Checking => if e == RunEvent::Arrived(true) {
            leave_path(v)
        } else {
            (RunView { stage: RunStage::PathHold, ..v }, RunActionView::Hold)
        },
        RunStage::DurationHold => if e == RunEvent::Held(true) {
            (RunView { stage: RunStage::Stopping, ..v }, RunActionView::Log(stopped_line()))
        } else {
            (
                RunView { stage: RunStage::StartingLogged, ..v },
                RunActionView::Log(step_line(v, "starting "@ + current(v).action)),
            )
        },
        RunStage::StartingLogged => (
            RunView { stage: RunStage::FirstDrain, ..v },
            RunActionView::DrainReplies(current(v).step_num),
        ),
        RunStage::FirstDrain => (RunView { stage: RunStage::CommandsHold, ..v }, RunActionView::Hold),
        RunStage::CommandsHold => if e == RunEvent::Held(true) {
            (RunView { stage: RunStage::Stopping, ..v }, RunActionView::Log(stopped_line()))
        } else {
            command_at(RunView { queued: 0, waits: false, ..v }, 0)
        },
        RunStage::CommandHold => if e == RunEvent::Held(true) {
            (RunView { stage: RunStage::CommandStopLogged, ..v }, RunActionView::Log(stopped_line()))
        } else if commands(v)[v.command as int] == "WAIT"@ {
            command_at(RunView { waits: true, ..v }, v.command + 1)
        } else {
            (
                RunView { stage: RunStage::Pushed, queued: v.queued + 1, ..v },
                RunActionView::Push(commands(v)[v.command as int]),
            )
        },
        RunStage::Pushed => command_at(v, v.command + 1),
        RunStage::CommandStopLogged => (RunView { stage: RunStage::TimerStarted, ..v }, RunActionView::StartTimer),
        RunStage::TimerStarted => (RunView { stage: RunStage::TimerHold, paused_ms: 0, ..v }, RunActionView::HoldTimed),
        RunStage::TimerHold => match e {
            RunEvent::HeldTimed(true, _) => (
                RunView { stage: RunStage::TimerStopLogged, ..v },
                RunActionView::Log(stopped_line()),
            ),
            RunEvent::HeldTimed(false, p) => (
                RunView {
                    stage: RunStage::Timing,
                    paused_ms: v.paused_ms + match p {
                        Some(ms) => ms as nat,
                        None => 0,
                    },
                    ..v
                },
                RunActionView::Elapsed,
            ),
            _ => (v, RunActionView::Finish),
        },
        RunStage::Timing => match e {
            RunEvent::Elapsed(raw) => if effective_ms(raw as nat, v.paused_ms) >= v.duration_ms {
                (RunView { stage: RunStage::FeedHoldPushed, ..v }, RunActionView::Push("\u{85}"@))
            } else if !v.waits {
                (
                    RunView { stage: RunStage::Draining, ..v },
                    RunActionView::DrainReplies(current(v).step_num),
                )
            } else {
                (RunView { stage: RunStage::TimerHold, ..v }, RunActionView::HoldTimed)
            },
            _ => (v, RunActionView::Finish),
        },
        RunStage::FeedHoldPushed => (
            RunView { stage: RunStage::FinishedLogged, ..v },
            RunActionView::Log(step_line(v, "finished "@ + current(v).action)),
        ),
        RunStage::FinishedLogged => begin_step(v, v.step + 1),
        RunStage::TimerStopLogged => begin_step(v, v.step + 1),
        RunStage::Draining => match e {
            RunEvent::Drained(n) => {
                let q = after_replies(v.queued, n as nat);
                if q == 0 {
                    resend_at(RunView { queued: 0, ..v }, 0)
                } else {
                    (RunView { stage: RunStage::TimerHold, queued: q, ..v }, RunActionView::HoldTimed)
                }
            },
            _ => (v, RunActionView::Finish),
        },
        RunStage::ResendHold => match e {
            RunEvent::HeldTimed(true, _) => (
                RunView { stage: RunStage::ResendStopLogged, ..v },
                RunActionView::Log(stopped_line()),
            ),
            RunEvent::HeldTimed(false, p) => (
                RunView {
                    stage: RunStage::ResendLogged,
                    paused_ms: v.paused_ms + match p {
                        Some(ms) => ms as nat,
                        None => 0,
                    },
                    ..v
                },
                RunActionView::Log(
                    step_line(v, "Sending action G-code '"@ + commands(v)[v.command as int] + "'"@),
                ),
            ),
            _ => (v, RunActionView::Finish),
        },
        RunStage::ResendLogged => (
            RunView { stage: RunStage::ResendPushed, queued: v.queued + 1, ..v },
            RunActionView::Push(commands(v)[v.command as int]),
        ),
        RunStage::ResendPushed => resend_at(v, v.command + 1),
        RunStage::ResendStopLogged => (RunView { stage: RunStage::TimerHold, ..v }, RunActionView::HoldTimed),
        RunStage::Stopping => (RunView { stage: RunStage::Done, ..v }, RunActionView::Finish),
        RunStage::Done => (v, RunActionView::Finish),
    }
}

/// The event each stage waits for.
pub open spec fn awaited(s: RunStage, e: RunEvent) -> bool {
    match s {
        RunStage::FirstHold | RunStage::PathHold | RunStage::DurationHold | RunStage::CommandsHold
        | RunStage::CommandHold => e is Held,
        RunStage::PathSending => e is PathSent,
        RunStage::Watching => e is Watched,
        RunStage::Checking => e is Arrived,
        RunStage::FirstDrain | RunStage::Draining => e is Drained,
        RunStage::TimerHold | RunStage::ResendHold => e is HeldTimed,
        RunStage::Timing => e is Elapsed,
        _ => e == RunEvent::Done,
    }
}

/// Whether a stage takes up the action's commands.
pub open spec fn in_commands(s: RunStage) -> bool {
    s == RunStage::CommandHold || s == RunStage::Pushed || s == RunStage::ResendHold
        || s == RunStage::ResendLogged || s == RunStage::ResendPushed
}

/// Whether a stage comes after the action's commands were looked up.
pub open spec fn after_lookup(s: RunStage) -> bool {
    in_commands(s) || s == RunStage::CommandStopLogged || s == RunStage::TimerStarted || s
        == RunStage::TimerHold || s == RunStage::Timing || s == RunStage::Draining || s
        == RunStage::ResendStopLogged
}

/// The run's invariant: a step is at hand until the run is done; once the
/// action's commands are looked up, its action exists and the command at
/// hand is one of its commands.
pub open spec fn run_wf(v: RunView) -> bool {
    &&& v.stage != RunStage::Done ==> v.step < v.steps.len()
    &&& after_lookup(v.stage) ==> commands_of(v.actions, current(v).action) is Some
    &&& in_commands(v.stage) ==> v.command < commands(v).len()
}

/// Whether leaving the path loop at this event takes the step's time.
pub open spec fn leaves_path(v: RunView, e: RunEvent) -> bool {
    ||| v.stage == RunStage::PathHold && e == RunEvent::Held(true)
    ||| v.stage == RunStage::PathSending && e == RunEvent::PathSent(false)
    ||| v.stage == RunStage::Checking && e == RunEvent::Arrived(true)
}

/// Whether the run can take event `e`: it is the one its stage waits for,
/// the step's time fits in a `u128` where it is taken, the step's action
/// exists where its commands are looked up, and no count runs past its
/// type.
pub open spec fn run_event_fits(v: RunView, e: RunEvent) -> bool {
    &&& awaited(v.stage, e)
    &&& leaves_path(v, e) ==> step_millis(current(v).hours, current(v).mins, current(v).secs) <= u128::MAX
    &&& (v.stage == RunStage::CommandsHold && e == RunEvent::Held(false)) ==> commands_of(
        v.actions,
        current(v).action,
    ) is Some
    &&& (v.stage == RunStage::CommandHold || v.stage == RunStage::ResendLogged) ==> v.queued < usize::MAX
    &&& e matches RunEvent::HeldTimed(false, Some(p)) ==> v.paused_ms + p <= u128::MAX
}

/// A run of `steps` with `actions` before its first step.
pub open spec fn initial_run(steps: Seq<StepRecord>, actions: Seq<ActionView>) -> RunView {
    RunView {
        steps,
        actions,
        step: 0,
        stage: RunStage::StepStart,
        send_path: true,
        command: 0,
        queued: 0,
        waits: false,
        paused_ms: 0,
        duration_ms: 0,
    }
}

impl RecipeRun {
    /// A run of the recipe's steps with the configured actions, and what it
    /// asks for first: step zero announced, or the end where there are no
    /// steps.
    pub fn start(steps: Vec<Step>, actions: Actions) -> (r: (RecipeRun, RunAction))
        ensures
            (r.0@, run_action_view(r.1)) == begin_step(
                initial_run(steps@.map_values(|s: Step| s@), actions@),
                0,
            ),
            run_wf(r.0@),
    {
        let mut run = RecipeRun {
            steps,
            actions,
            step: 0,
            stage: RunStage::StepStart,
            send_path: true,
            command: 0,
            queued: 0,
            waits: false,
            paused_ms: 0,
            duration_ms: 0,
        };
        let a = run.begin(0);
        (run, a)
    }

    /// Starts step `k`, or ends the run past the last step.
    fn begin(&mut self, k: usize) -> (r: RunAction)
        ensures
            (final(self)@, run_action_view(r)) == begin_step(old(self)@, k as nat),
            final(self)@.stage != RunStage::Done ==> final(self)@.step < final(self)@.steps.len(),
    {
        assert(self@.steps.len() == self.steps@.len());
        if k < self.steps.len() {
            self.step = k;
            self.stage = RunStage::StepStart;
            RunAction::Announce(k)
        } else {
            self.stage = RunStage::Done;
            RunAction::Finish
        }
    }

    /// A log line of the step at hand.
    fn line(&self, text: &str) -> (r: String)
        requires
            self.step < self.steps@.len(),
        ensures
            r@ == step_line(self@, text@),
    {
        assert(self@.steps[self.step as int] == self.steps@[self.step as int]@);
        let mut r = concat("Step ", self.steps[self.step].step_num.as_str());
        append_str(&mut r, ") ");
        append_str(&mut r, text);
        r
    }

    /// The commands of the action of the step at hand.
    fn commands_here(&self) -> (r: Vec<String>)
        requires
            self.step < self.steps@.len(),
        ensures
            views(r@) == commands(self@),
    {
        assert(self@.steps[self.step as int] == self.steps@[self.step as int]@);
        match action_commands(&self.actions, self.steps[self.step].selected_action.as_str()) {
            Some(c) => c,
            None => {
                let r: Vec<String> = Vec::new();
                assert(views(r@) =~= Seq::<Seq<char>>::empty());
                r
            },
        }
    }

    /// Leaves the path loop: takes the step's time and holds.
    fn leave(&mut self) -> (r: RunAction)
        requires
            old(self).step < old(self).steps@.len(),
            step_millis(current(old(self)@).hours, current(old(self)@).mins, current(old(self)@).secs)
                <= u128::MAX,
        ensures
            (final(self)@, run_action_view(r)) == leave_path(old(self)@),
    {
        assert(self@.steps[self.step as int] == self.steps@[self.step as int]@);
        let ms = match crate::run::step_duration_ms(&self.steps[self.step]) {
            Some(t) => t,
            None => 0,
        };
        self.duration_ms = ms;
        self.stage = RunStage::DurationHold;
        RunAction::Hold
    }

    /// Takes up command `j` of the action.
    fn command_at(&mut self, j: usize) -> (r: RunAction)
        requires
            old(self).step < old(self).steps@.len(),
        ensures
            (final(self)@, run_action_view(r)) == command_at(old(self)@, j as nat),
    {
        let cs = self.commands_here();
        assert(views(cs@).len() == cs@.len());
        if j < cs.len() {
            self.stage = RunStage::CommandHold;
            self.command = j;
            RunAction::Hold
        } else {
            self.stage = RunStage::TimerStarted;
            RunAction::StartTimer
        }
    }

    /// Sends command `r` of the action again.
    fn resend_at(&mut self, j: usize) -> (r: RunAction)
        requires
            old(self).step < old(self).steps@.len(),
        ensures
            (final(self)@, run_action_view(r)) == resend_at(old(self)@, j as nat),
    {
        let cs = self.commands_here();
        assert(views(cs@).len() == cs@.len());
        if j < cs.len() {
            self.stage = RunStage::ResendHold;
            self.command = j;
            RunAction::HoldTimed
        } else {
            self.stage = RunStage::TimerHold;
            RunAction::HoldTimed
        }
    }

    fn next_step(&mut self, e: RunEvent) -> (r: RunAction)
        requires
            run_wf(old(self)@),
            run_event_fits(old(self)@, e),
            old(self).stage == RunStage::StepStart || old(self).stage == RunStage::WaitLogged || old(self).stage == RunStage::InputRequested || old(self).stage == RunStage::FirstHold || old(self).stage == RunStage::InputLogged || old(self).stage == RunStage::GoingLogged,
        ensures
            (final(self)@, run_action_view(r)) == run_next(old(self)@, e),
            run_wf(final(self)@),
    {
        let ghost v = self@;
        assert(self@.steps.len() == self.steps@.len());
        match self.stage {
            RunStage::StepStart => {
                assert(current(v) == self.steps@[self.step as int]@);
                if self.steps[self.step].wait {
                    self.stage = RunStage::WaitLogged;
                    RunAction::Log(self.line("Waiting for user input"))
                } else {
                    self.stage = RunStage::FirstHold;
                    RunAction::Hold
                }
            },
            RunStage::WaitLogged => {
                self.stage = RunStage::InputRequested;
                RunAction::RequireInput
            },
            RunStage::InputRequested => {
                self.stage = RunStage::FirstHold;
                RunAction::Hold
            },
            RunStage::FirstHold => {
                assert(current(v) == self.steps@[self.step as int]@);
                if e == RunEvent::Held(true) {
                    self.stage = RunStage::Stopping;
                    RunAction::Log(copy_str("Stopped By User"))
                } else if self.steps[self.step].wait {
                    self.stage = RunStage::InputLogged;
                    RunAction::Log(self.line("User input received. Continuing."))
                } else {
                    let t = concat("Going to ", self.steps[self.step].selected_destination.as_str());
                    let l = self.line(t.as_str());
                    self.stage = RunStage::GoingLogged;
                    RunAction::Log(l)
                }
            },
            RunStage::InputLogged => {
                assert(current(v) == self.steps@[self.step as int]@);
                let t = concat("Going to ", self.steps[self.step].selected_destination.as_str());
                let l = self.line(t.as_str());
                self.stage = RunStage::GoingLogged;
                RunAction::Log(l)
            },
            RunStage::GoingLogged => {
                self.stage = RunStage::PathHold;
                self.send_path = true;
                RunAction::Hold
            },
            _ => RunAction::Finish,
        }
    }

    fn next_path(&mut self, e: RunEvent) -> (r: RunAction)
        requires
            run_wf(old(self)@),
            run_event_fits(old(self)@, e),
            old(self).stage == RunStage::PathHold || old(self).stage == RunStage::PathSending || old(self).stage == RunStage::Watching || old(self).stage == RunStage::Pausing || old(self).stage == RunStage::Checking,
        ensures
            (final(self)@, run_action_view(r)) == run_next(old(self)@, e),
            run_wf(final(self)@),
    {
        let ghost v = self@;
        assert(self@.steps.len() == self.steps@.len());
        match self.stage {
            RunStage::PathHold => {
                assert(current(v) == self.steps@[self.step as int]@);
                if e == RunEvent::Held(true) {
                    self.leave()
                } else if self.send_path {
                    let st = &self.steps[self.step];
                    let target = destination_name(st.selected_destination.as_str(), st.hover);
                    let num = copy_str(st.step_num.as_str());
                    self.stage = RunStage::PathSending;
                    RunAction::SendPath(target, num)
                } else {
                    self.stage = RunStage::Watching;
                    RunAction::WatchPath
                }
            },
            RunStage::PathSending => {
                if e == RunEvent::PathSent(false) {
                    self.leave()
                } else {
                    self.stage = RunStage::Watching;
                    self.send_path = false;
                    RunAction::WatchPath
                }
            },
            RunStage::Watching => {
                if e == RunEvent::Watched(WatchEnd::Paused) {
                    self.stage = RunStage::Pausing;
                    RunAction::PauseHere
                } else {
                    self.stage = RunStage::Checking;
                    RunAction::CheckArrived
                }
            },
            RunStage::Pausing => {
                self.stage = RunStage::Checking;
                self.send_path = true;
                RunAction::CheckArrived
            },
            RunStage::Checking => {
                if e == RunEvent::Arrived(true) {
                    self.leave()
                } else {
                    self.stage = RunStage::PathHold;
                    RunAction::Hold
                }
            },
            _ => RunAction::Finish,
        }
    }

    fn next_action(&mut self, e: RunEvent) -> (r: RunAction)
        requires
            run_wf(old(self)@),
            run_event_fits(old(self)@, e),
            old(self).stage == RunStage::DurationHold || old(self).stage == RunStage::StartingLogged || old(self).stage == RunStage::FirstDrain || old(self).stage == RunStage::CommandsHold || old(self).stage == RunStage::CommandHold || old(self).stage == RunStage::Pushed || old(self).stage == RunStage::CommandStopLogged || old(self).stage == RunStage::TimerStarted,
        ensures
            (final(self)@, run_action_view(r)) == run_next(old(self)@, e),
            run_wf(final(self)@),
    {
        let ghost v = self@;
        assert(self@.steps.len() == self.steps@.len());
        match self.stage {
            RunStage::DurationHold => {
                assert(current(v) == self.steps@[self.step as int]@);
                if e == RunEvent::Held(true) {
                    self.stage = RunStage::Stopping;
                    RunAction::Log(copy_str("Stopped By User"))
                } else {
                    let t = concat("starting ", self.steps[self.step].selected_action.as_str());
                    let l = self.line(t.as_str());
                    self.stage = RunStage::StartingLogged;
                    RunAction::Log(l)
                }
            },
            RunStage::StartingLogged => {
                assert(current(v) == self.steps@[self.step as int]@);
                self.stage = RunStage::FirstDrain;
                RunAction::DrainReplies(copy_str(self.steps[self.step].step_num.as_str()))
            },
            RunStage::FirstDrain => {
                self.stage = RunStage::CommandsHold;
                RunAction::Hold
            },
            RunStage::CommandsHold => {
                if e == RunEvent::Held(true) {
                    self.stage = RunStage::Stopping;
                    RunAction::Log(copy_str("Stopped By User"))
                } else {
                    self.queued = 0;
                    self.waits = false;
                    self.command_at(0)
                }
            },
            RunStage::CommandHold => {
                if e == RunEvent::Held(true) {
                    self.stage = RunStage::CommandStopLogged;
                    RunAction::Log(copy_str("Stopped By User"))
                } else {
                    let cs = self.commands_here();
                    assert(views(cs@)[self.command as int] == cs@[self.command as int]@);
                    let c = &cs[self.command];
                    if str_eq(c.as_str(), "WAIT") {
                        assert(views(cs@).len() == cs@.len());
                        let n = cs.len();
                        assert(self.command < n);
                        self.waits = true;
                        let j = self.command + 1;
                        self.command_at(j)
                    } else {
                        self.stage = RunStage::Pushed;
                        self.queued = self.queued + 1;
                        RunAction::Push(copy_str(c.as_str()))
                    }
                }
            },
            RunStage::Pushed => {
                let cs = self.commands_here();
                assert(views(cs@).len() == cs@.len());
                let n = cs.len();
                assert(self.command < n);
                let j = self.command + 1;
                self.command_at(j)
            },
            RunStage::CommandStopLogged => {
                self.stage = RunStage::TimerStarted;
                RunAction::StartTimer
            },
            RunStage::TimerStarted => {
                self.stage = RunStage::TimerHold;
                self.paused_ms = 0;
                RunAction::HoldTimed
            },
            _ => RunAction::Finish,
        }
    }

    fn next_timer(&mut self, e: RunEvent) -> (r: RunAction)
        requires
            run_wf(old(self)@),
            run_event_fits(old(self)@, e),
            old(self).stage == RunStage::TimerHold || old(self).stage == RunStage::Timing || old(self).stage == RunStage::FeedHoldPushed || old(self).stage == RunStage::FinishedLogged || old(self).stage == RunStage::TimerStopLogged || old(self).stage == RunStage::Draining,
        ensures
            (final(self)@, run_action_view(r)) == run_next(old(self)@, e),
            run_wf(final(self)@),
    {
        let ghost v = self@;
        assert(self@.steps.len() == self.steps@.len());
        match self.stage {
            RunStage::TimerHold => {
                match e {
                    RunEvent::HeldTimed(true, _) => {
                        self.stage = RunStage::TimerStopLogged;
                        RunAction::Log(copy_str("Stopped By User"))
                    },
                    RunEvent::HeldTimed(false, p) => {
                        let add = match p {
                            Some(ms) => ms,
                            None => 0,
                        };
                        self.paused_ms = self.paused_ms + add;
                        self.stage = RunStage::Timing;
                        RunAction::Elapsed
                    },
                    _ => RunAction::Finish,
                }
            },
            RunStage::Timing => {
                match e {
                    RunEvent::Elapsed(raw) => {
                        let effective = if raw >= self.paused_ms {
                            raw - self.paused_ms
                        } else {
                            0
                        };
                        if effective >= self.duration_ms {
                            self.stage = RunStage::FeedHoldPushed;
                            RunAction::Push(copy_str("\u{85}"))
                        } else if !self.waits {
                            assert(current(v) == self.steps@[self.step as int]@);
                            self.stage = RunStage::Draining;
                            RunAction::DrainReplies(copy_str(self.steps[self.step].step_num.as_str()))
                        } else {
                            self.stage = RunStage::TimerHold;
                            RunAction::HoldTimed
                        }
                    },
                    _ => RunAction::Finish,
                }
            },
            RunStage::FeedHoldPushed => {
                assert(current(v) == self.steps@[self.step as int]@);
                let t = concat("finished ", self.steps[self.step].selected_action.as_str());
                let l = self.line(t.as_str());
                self.stage = RunStage::FinishedLogged;
                RunAction::Log(l)
            },
            RunStage::FinishedLogged => {
                let n = self.steps.len();
                let k = self.step + 1;
                self.begin(k)
            },
            RunStage::TimerStopLogged => {
                let n = self.steps.len();
                let k = self.step + 1;
                self.begin(k)
            },
            RunStage::Draining => {
                match e {
                    RunEvent::Drained(n) => {
                        let q = if self.queued >= n {
                            self.queued - n
                        } else {
                            0
                        };
                        if q == 0 {
                            self.queued = 0;
                            self.resend_at(0)
                        } else {
                            self.stage = RunStage::TimerHold;
                            self.queued = q;
                            RunAction::HoldTimed
                        }
                    },
                    _ => RunAction::Finish,
                }
            },
            _ => RunAction::Finish,
        }
    }

    fn next_resend(&mut self, e: RunEvent) -> (r: RunAction)
        requires
            run_wf(old(self)@),
            run_event_fits(old(self)@, e),
            old(self).stage == RunStage::ResendHold || old(self).stage == RunStage::ResendLogged || old(self).stage == RunStage::ResendPushed || old(self).stage == RunStage::ResendStopLogged || old(self).stage == RunStage::Stopping || old(self).stage == RunStage::Done,
        ensures
            (final(self)@, run_action_view(r)) == run_next(old(self)@, e),
            run_wf(final(self)@),
    {
        let ghost v = self@;
        assert(self@.steps.len() == self.steps@.len());
        match self.stage {
            RunStage::ResendHold => {
                match e {
                    RunEvent::HeldTimed(true, _) => {
                        self.stage = RunStage::ResendStopLogged;
                        RunAction::Log(copy_str("Stopped By User"))
                    },
                    RunEvent::HeldTimed(false, p) => {
                        let add = match p {
                            Some(ms) => ms,
                            None => 0,
                        };
                        self.paused_ms = self.paused_ms + add;
                        let cs = self.commands_here();
                        assert(views(cs@)[self.command as int] == cs@[self.command as int]@);
                        let mut t = concat("Sending action G-code '", cs[self.command].as_str());
                        append_str(&mut t, "'");
                        let l = self.line(t.as_str());
                        self.stage = RunStage::ResendLogged;
                        RunAction::Log(l)
                    },
                    _ => RunAction::Finish,
                }
            },
            RunStage::ResendLogged => {
                let cs = self.commands_here();
                assert(views(cs@)[self.command as int] == cs@[self.command as int]@);
                self.stage = RunStage::ResendPushed;
                self.queued = self.queued + 1;
                RunAction::Push(copy_str(cs[self.command].as_str()))
            },
            RunStage::ResendPushed => {
                let cs = self.commands_here();
                assert(views(cs@).len() == cs@.len());
                let n = cs.len();
                assert(self.command < n);
                let j = self.command + 1;
                self.resend_at(j)
            },
            RunStage::ResendStopLogged => {
                self.stage = RunStage::TimerHold;
                RunAction::HoldTimed
            },
            RunStage::Stopping => {
                self.stage = RunStage::Done;
                RunAction::Finish
            },
            RunStage::Done => RunAction::Finish,

            _ => RunAction::Finish,
        }
    }

    /// Takes event `e` and says what the run asks for next, as `run_next`
    /// says.
    pub fn next(&mut self, e: RunEvent) -> (r: RunAction)
        requires
            run_wf(old(self)@),
            run_event_fits(old(self)@, e),
        ensures
            (final(self)@, run_action_view(r)) == run_next(old(self)@, e),
            run_wf(final(self)@),
    {
        match self.stage {
            RunStage::StepStart | RunStage::WaitLogged | RunStage::InputRequested | RunStage::FirstHold | RunStage::InputLogged | RunStage::GoingLogged => self.next_step(e),
            RunStage::PathHold | RunStage::PathSending | RunStage::Watching | RunStage::Pausing | RunStage::Checking => self.next_path(e),
            RunStage::DurationHold | RunStage::StartingLogged | RunStage::FirstDrain | RunStage::CommandsHold | RunStage::CommandHold | RunStage::Pushed | RunStage::CommandStopLogged | RunStage::TimerStarted => self.next_action(e),
            RunStage::TimerHold | RunStage::Timing | RunStage::FeedHoldPushed | RunStage::FinishedLogged | RunStage::TimerStopLogged | RunStage::Draining => self.next_timer(e),
            RunStage::ResendHold | RunStage::ResendLogged | RunStage::ResendPushed | RunStage::ResendStopLogged | RunStage::Stopping | RunStage::Done => self.next_resend(e),
        }
    }

}

/// A stop seen while holding before a step, before its action or before
/// its commands ends the run: "Stopped By User" is logged, and then the run
/// is over.
pub proof fn lemma_stop_ends_run(v: RunView)
    requires
        v.stage == RunStage::FirstHold || v.stage == RunStage::DurationHold || v.stage
            == RunStage::CommandsHold,
    ensures
        run_next(v, RunEvent::Held(true)) == (RunView { stage: RunStage::Stopping, ..v }, RunActionView::Log(
            "Stopped By User"@,
        )),
        run_next(run_next(v, RunEvent::Held(true)).0, RunEvent::Done).1 == RunActionView::Finish,
        run_next(run_next(v, RunEvent::Held(true)).0, RunEvent::Done).0.stage == RunStage::Done,
{
}

/// Steps run in order: once a step's action is finished (or stopped while
/// timed), the next step is announced, and after the last one the run is
/// over.
pub proof fn lemma_steps_in_order(v: RunView)
    requires
        v.stage == RunStage::FinishedLogged || v.stage == RunStage::TimerStopLogged,
    ensures
        v.step + 1 < v.steps.len() ==> run_next(v, RunEvent::Done).1 == RunActionView::Announce(v.step + 1)
            && run_next(v, RunEvent::Done).0.step == v.step + 1,
        v.step + 1 >= v.steps.len() ==> run_next(v, RunEvent::Done).1 == RunActionView::Finish,
{
}

/// The log line of a controller reply during step `step_num`, at `time`.
pub open spec fn reply_text(time: Seq<char>, step_num: Seq<char>, command: Seq<char>, result: Seq<char>) -> Seq<char> {
    time + " => Step "@ + step_num + ") G-code '"@ + command + "' responded '"@ + result + "'"@
}

/// The log line of a controller reply.
pub fn reply_line(time: &str, step_num: &str, command: &str, result: &str) -> (r: String)
    ensures
        r@ == reply_text(time@, step_num@, command@, result@),
{
    let mut r = concat(time, " => Step ");
    append_str(&mut r, step_num);
    append_str(&mut r, ") G-code '");
    append_str(&mut r, command);
    append_str(&mut r, "' responded '");
    append_str(&mut r, result);
    append_str(&mut r, "'");
    r
}

} // verus!
