//! Recipe steps: how a step reads in the step list, how long it lasts,
//! when a run may start or finish, and the numbering of the steps that wait
//! for the operator.
use vstd::prelude::*;
use crate::text::{append_str, concat, copy_str, copy_strings, lemma_views_push, parse_u128, parse_unsigned, parse_usize, views};
use crate::recipe::RecipeState;

verus! {

/// One step of a recipe: go to a destination (or hover above it), then run
/// an action for the given time; optionally wait for the operator first.
#[derive(Debug, Clone)]
pub struct Step {
    pub step_num: String,
    pub selected_destination: String,
    pub selected_action: String,
    pub secs_value: String,
    pub mins_value: String,
    pub hours_value: String,
    pub hover: bool,
    pub wait: bool,
}

/// The plural ending of a unit for the count written as `s`: `"s"` when
/// `s` reads as a number above one.
pub open spec fn plural(s: Seq<char>) -> Seq<char> {
    match parse_unsigned(s, usize::MAX as int) {
        Some(v) => if v > 1 {
            "s"@
        } else {
            Seq::empty()
        },
        None => Seq::empty(),
    }
}

/// The plural ending for the count written as `string`.
pub fn ns(string: &String) -> (r: String)
    ensures
        r@ == plural(string@),
{
    let n = match parse_usize(string.as_str()) {
        Some(v) => v,
        None => 0,
    };
    if n > 1 {
        copy_str("s")
    } else {
        proof {
            reveal_strlit("");
        }
        let r = copy_str("");
        assert(r@ =~= Seq::<char>::empty());
        r
    }
}

/// `"{count} {unit}{plural}"`.
pub open spec fn amount(count: Seq<char>, unit: Seq<char>) -> Seq<char> {
    count + " "@ + unit + plural(count)
}

/// The duration part of a step's text.
pub open spec fn duration_phrase(h: Seq<char>, m: Seq<char>, s: Seq<char>) -> Seq<char> {
    let e = Seq::<char>::empty();
    if h == e && m == e && s == e {
        "0 seconds"@
    } else if h == e && m == e {
        amount(s, "second"@)
    } else if h == e && s == e {
        amount(m, "minute"@)
    } else if m == e && s == e {
        amount(h, "hour"@)
    } else if h == e {
        amount(m, "minute"@) + " and "@ + amount(s, "second"@)
    } else if m == e {
        amount(h, "hour"@) + " and "@ + amount(s, "second"@)
    } else if s == e {
        amount(h, "hour"@) + " and "@ + amount(m, "minute"@)
    } else {
        amount(h, "hour"@) + ", "@ + amount(m, "minute"@) + " and "@ + amount(s, "second"@)
    }
}

/// How a step reads in the run list: an optional wait, the action, and its
/// duration.
pub open spec fn step_text(
    wait: bool,
    action: Seq<char>,
    h: Seq<char>,
    m: Seq<char>,
    s: Seq<char>,
) -> Seq<char> {
    (if wait {
        "Wait for user input then\n "@
    } else {
        Seq::empty()
    }) + action + " for "@ + duration_phrase(h, m, s)
}

fn amount_text(count: &String, unit: &str) -> (r: String)
    ensures
        r@ == amount(count@, unit@),
{
    let mut r = concat(count.as_str(), " ");
    append_str(&mut r, unit);
    let p = ns(count);
    append_str(&mut r, p.as_str());
    r
}

fn is_empty_text(s: &String) -> (r: bool)
    ensures
        r == (s@ == Seq::<char>::empty()),
{
    let r = s.as_str().is_empty();
    proof {
        if s@.len() == 0 {
            assert(s@ =~= Seq::<char>::empty());
        }
    }
    r
}

/// The mathematical value of a recipe step.
pub struct StepRecord {
    pub step_num: Seq<char>,
    pub destination: Seq<char>,
    pub action: Seq<char>,
    pub secs: Seq<char>,
    pub mins: Seq<char>,
    pub hours: Seq<char>,
    pub hover: bool,
    pub wait: bool,
}

impl View for Step {
    type V = StepRecord;

    open spec fn view(&self) -> StepRecord {
        StepRecord {
            step_num: self.step_num@,
            destination: self.selected_destination@,
            action: self.selected_action@,
            secs: self.secs_value@,
            mins: self.mins_value@,
            hours: self.hours_value@,
            hover: self.hover,
            wait: self.wait,
        }
    }
}

impl Step {
    /// How this step reads in the run list.
    pub fn step_time_text(&self) -> (r: String)
        ensures
            r@ == step_text(
                self.wait,
                self.selected_action@,
                self.hours_value@,
                self.mins_value@,
                self.secs_value@,
            ),
    {
        let he = is_empty_text(&self.hours_value);
        let me = is_empty_text(&self.mins_value);
        let se = is_empty_text(&self.secs_value);
        let mut r = if self.wait {
            copy_str("Wait for user input then\n ")
        } else {
            String::new()
        };
        append_str(&mut r, self.selected_action.as_str());
        append_str(&mut r, " for ");
        let ghost head = r@;
        if he && me && se {
            append_str(&mut r, "0 seconds");
        } else if he && me {
            let a = amount_text(&self.secs_value, "second");
            append_str(&mut r, a.as_str());
        } else if he && se {
            let a = amount_text(&self.mins_value, "minute");
            append_str(&mut r, a.as_str());
        } else if me && se {
            let a = amount_text(&self.hours_value, "hour");
            append_str(&mut r, a.as_str());
        } else if he {
            let a = amount_text(&self.mins_value, "minute");
            append_str(&mut r, a.as_str());
            append_str(&mut r, " and ");
            let b = amount_text(&self.secs_value, "second");
            append_str(&mut r, b.as_str());
        } else if me {
            let a = amount_text(&self.hours_value, "hour");
            append_str(&mut r, a.as_str());
            append_str(&mut r, " and ");
            let b = amount_text(&self.secs_value, "second");
            append_str(&mut r, b.as_str());
        } else if se {
            let a = amount_text(&self.hours_value, "hour");
            append_str(&mut r, a.as_str());
            append_str(&mut r, " and ");
            let b = amount_text(&self.mins_value, "minute");
            append_str(&mut r, b.as_str());
        } else {
            let a = amount_text(&self.hours_value, "hour");
            append_str(&mut r, a.as_str());
            append_str(&mut r, ", ");
            let b = amount_text(&self.mins_value, "minute");
            append_str(&mut r, b.as_str());
            append_str(&mut r, " and ");
            let c = amount_text(&self.secs_value, "second");
            append_str(&mut r, c.as_str());
        }
        assert(r@ =~= head + duration_phrase(
            self.hours_value@,
            self.mins_value@,
            self.secs_value@,
        ));
        proof {
            let w: Seq<char> = if self.wait {
                "Wait for user input then\n "@
            } else {
                Seq::empty()
            };
            assert(head =~= w + self.selected_action@ + " for "@);
        }
        r
    }
}

/// A time field as the run reads it: its number, or zero when it does not
/// read as one.
pub open spec fn field_value(s: Seq<char>) -> nat {
    match parse_unsigned(s, u128::MAX as int) {
        Some(v) => v,
        None => 0,
    }
}

/// The time a step's action runs, in milliseconds.
pub open spec fn step_millis(h: Seq<char>, m: Seq<char>, s: Seq<char>) -> int {
    (field_value(h) * 3600000 + field_value(m) * 60000 + field_value(s) * 1000) as int
}

fn field_u128(s: &String) -> (r: u128)
    ensures
        r == field_value(s@),
{
    match parse_u128(s.as_str()) {
        Some(v) => v,
        None => 0,
    }
}

/// The time the step's action runs, in milliseconds; `None` when it does
/// not fit in a `u128`.
pub fn step_duration_ms(step: &Step) -> (r: Option<u128>)
    ensures
        ({
            let t = step_millis(step.hours_value@, step.mins_value@, step.secs_value@);
            if t <= u128::MAX {
                r == Some(t as u128)
            } else {
                r is None
            }
        }),
{
    let h = field_u128(&step.hours_value);
    let m = field_u128(&step.mins_value);
    let s = field_u128(&step.secs_value);
    let hm = match h.checked_mul(3600000) {
        Some(v) => v,
        None => {
            return None;
        },
    };
    let mm = match m.checked_mul(60000) {
        Some(v) => v,
        None => {
            return None;
        },
    };
    let sm = match s.checked_mul(1000) {
        Some(v) => v,
        None => {
            return None;
        },
    };
    let a = match hm.checked_add(mm) {
        Some(v) => v,
        None => {
            return None;
        },
    };
    a.checked_add(sm)
}

/// The screen of the run tab.
#[derive(Debug, Clone, Copy, PartialEq, Eq)]
pub enum RunState {
    Standard,
    BeforeRequiredInput,
    AfterRequiredInput,
}

/// A run may start (or, with the inputs asked after it, finish): no input
/// is asked for, or at least one has been entered.
pub open spec fn allows(values: Seq<Seq<char>>) -> bool {
    values.len() == 0 || exists|i: int| 0 <= i < values.len() && (#[trigger] values[i]).len() > 0
}

/// Whether the entered values let a run start (or finish).
pub fn inputs_allow(values: &Vec<String>) -> (r: bool)
    ensures
        r == allows(views(values@)),
{
    if values.len() == 0 {
        return true;
    }
    for i in 0..values.len()
        invariant
            forall|k: int| 0 <= k < i ==> (#[trigger] values@[k])@.len() == 0,
    {
        if !values[i].as_str().is_empty() {
            assert(views(values@)[i as int].len() > 0);
            return true;
        }
    }
    proof {
        assert forall|i: int| 0 <= i < views(values@).len() implies (#[trigger] views(values@)[i]).len() == 0 by {
            assert(views(values@)[i] == values@[i]@);
        }
    }
    false
}

/// The run-tab screen once a run ends: the inputs asked after a run when the
/// recipe has any, else the standard screen.
pub fn after_run_state(after_inputs: usize) -> (r: RunState)
    ensures
        r == if after_inputs > 0 {
            RunState::AfterRequiredInput
        } else {
            RunState::Standard
        },
{
    if after_inputs > 0 {
        RunState::AfterRequiredInput
    } else {
        RunState::Standard
    }
}

/// The number of `true` values among the first `k` of `waits`.
pub open spec fn waits_before(waits: Seq<bool>, k: int) -> nat
    decreases k,
{
    if k <= 0 {
        0
    } else {
        waits_before(waits, k - 1) + if waits[k - 1] {
            1nat
        } else {
            0nat
        }
    }
}

/// The continue buttons of a recipe's steps: the waiting steps are numbered
/// 1, 2, ... in order; the other steps get none.
pub fn continue_numbers(waits: &Vec<bool>) -> (r: Vec<Option<usize>>)
    requires
        waits@.len() < usize::MAX,
    ensures
        r@.len() == waits@.len(),
        forall|i: int|
            0 <= i < r@.len() ==> #[trigger] r@[i] == if waits@[i] {
                Some((waits_before(waits@, i) + 1) as usize)
            } else {
                None
            },
{
    let mut r: Vec<Option<usize>> = Vec::new();
    let mut count: usize = 1;
    for i in 0..waits.len()
        invariant
            waits@.len() < usize::MAX,
            r@.len() == i,
            count == waits_before(waits@, i as int) + 1,
            count <= i + 1,
            forall|k: int|
                0 <= k < i ==> #[trigger] r@[k] == if waits@[k] {
                    Some((waits_before(waits@, k) + 1) as usize)
                } else {
                    None
                },
    {
        if waits[i] {
            r.push(Some(count));
            count = count + 1;
        } else {
            r.push(None);
        }
    }
    r
}

/// A continue button's place after one waiting step is done: one lower,
/// and never below zero.
pub fn step_down(display_value: usize) -> (r: usize)
    ensures
        r == if display_value == 0 {
            0
        } else {
            display_value - 1
        },
{
    if display_value == 0 {
        0
    } else {
        display_value - 1
    }
}

/// The controls the run tab shows under the recipe list.
#[derive(Clone, Copy, Debug, PartialEq, Eq, Structural)]
pub enum RunControls {
    /// Nothing to press.
    Nothing,
    /// The start button.
    Start,
    /// Stop and pause.
    StopPause,
    /// Stop and resume.
    StopResume,
    /// Stop, and the notice that the run waits for the user.
    StopWaiting,
}

/// The controls for recipe state `s`, where `selected` tells whether a
/// recipe is chosen.
pub open spec fn run_controls_of(selected: bool, s: RecipeState) -> RunControls {
    if !selected {
        RunControls::Nothing
    } else {
        match s {
            RecipeState::Stopped => RunControls::Start,
            RecipeState::RecipeRunning => RunControls::StopPause,
            RecipeState::RecipePaused => RunControls::StopResume,
            RecipeState::RequireInput => RunControls::StopWaiting,
            _ => RunControls::Nothing,
        }
    }
}

/// The controls the run tab shows, as `run_controls_of` says.
pub fn run_controls(selected: bool, s: RecipeState) -> (r: RunControls)
    ensures
        r == run_controls_of(selected, s),
{
    if !selected {
        return RunControls::Nothing;
    }
    match s {
        RecipeState::Stopped => RunControls::Start,
        RecipeState::RecipeRunning => RunControls::StopPause,
        RecipeState::RecipePaused => RunControls::StopResume,
        RecipeState::RequireInput => RunControls::StopWaiting,
        _ => RunControls::Nothing,
    }
}

/// Whether a step's continue button is shown: it is the next waiting step
/// (its number has counted down to 1) and the run waits for the user.
pub fn continue_shown(display_value: usize, s: RecipeState) -> (r: bool)
    ensures
        r == (display_value == 1 && s == RecipeState::RequireInput),
{
    display_value == 1 && s == RecipeState::RequireInput
}

/// A recipe as the run tab reads it: the inputs asked before and after a
/// run, and the steps.
#[derive(Debug)]
pub struct RunRecipe {
    pub before: Vec<String>,
    pub after: Vec<String>,
    pub steps: Vec<Step>,
}

/// A message to the run tab (`Run`, `Stop`, `Pause` and `Resume` are the
/// application's business).
#[derive(Clone, Debug)]
pub enum RunMessage {
    LargeStart,
    Start,
    Cancel,
    Run,
    Finish,
    Stop,
    Pause,
    Resume,
    RecipieChanged(String),
    RequiredBeforeInput(usize, String),
    RequiredAfterInput(usize, String),
    Continue,
}

/// The mathematical value of a recipe as the run tab reads it.
pub struct RunRecipeView {
    pub before: Seq<Seq<char>>,
    pub after: Seq<Seq<char>>,
    pub steps: Seq<StepRecord>,
}

/// The value of an optional recipe.
pub open spec fn run_recipe_view(r: Option<RunRecipe>) -> Option<RunRecipeView> {
    match r {
        Some(x) => Some(
            RunRecipeView {
                before: views(x.before@),
                after: views(x.after@),
                steps: x.steps@.map_values(|st: Step| st@),
            },
        ),
        None => None,
    }
}

/// The mathematical value of the run tab.
pub struct RunTabView {
    pub search_value: Option<Seq<char>>,
    pub recipe: Option<RunRecipeView>,
    pub continue_numbers: Seq<Option<usize>>,
    pub state: RunState,
    pub before_titles: Seq<Seq<char>>,
    pub before_values: Seq<Seq<char>>,
    pub after_titles: Seq<Seq<char>>,
    pub after_values: Seq<Seq<char>>,
}

/// The run tab: the recipe chosen and as read, the continue buttons of its
/// waiting steps, the screen shown, and the inputs asked before and after
/// a run with the values entered.
#[derive(Debug)]
pub struct RunTab {
    pub search_value: Option<String>,
    pub recipe: Option<RunRecipe>,
    pub continue_numbers: Vec<Option<usize>>,
    pub state: RunState,
    pub before_titles: Vec<String>,
    pub before_values: Vec<String>,
    pub after_titles: Vec<String>,
    pub after_values: Vec<String>,
}

impl View for RunTab {
    type V = RunTabView;

    open spec fn view(&self) -> RunTabView {
        RunTabView {
            search_value: match self.search_value {
                Some(n) => Some(n@),
                None => None,
            },
            recipe: run_recipe_view(self.recipe),
            continue_numbers: self.continue_numbers@,
            state: self.state,
            before_titles: views(self.before_titles@),
            before_values: views(self.before_values@),
            after_titles: views(self.after_titles@),
            after_values: views(self.after_values@),
        }
    }
}

/// Every input asked has one value.
pub open spec fn run_tab_wf(v: RunTabView) -> bool {
    v.before_values.len() == v.before_titles.len() && v.after_values.len() == v.after_titles.len()
}

/// What the run tab asks of its surroundings.
#[derive(Debug)]
pub enum RunTabAction {
    /// Nothing.
    Nothing,
    /// Read the chosen recipe and hand it to `recipe_loaded`.
    Load,
    /// Open this log file, write these lines, and start the run.
    StartRun(String, Vec<String>),
    /// Write these lines and close the log file.
    FinishRun(Vec<String>),
}

/// The mathematical value of a run-tab action.
pub enum RunTabActionView {
    Nothing,
    Load,
    StartRun(Seq<char>, Seq<Seq<char>>),
    FinishRun(Seq<Seq<char>>),
}

/// The value of a run-tab action.
pub open spec fn run_tab_action_view(a: RunTabAction) -> RunTabActionView {
    match a {
        RunTabAction::Nothing => RunTabActionView::Nothing,
        RunTabAction::Load => RunTabActionView::Load,
        RunTabAction::StartRun(f, l) => RunTabActionView::StartRun(f@, views(l@)),
        RunTabAction::FinishRun(l) => RunTabActionView::FinishRun(views(l@)),
    }
}

/// The log lines of the entered inputs: `{date} => {title}: {value}`.
pub open spec fn input_lines(date: Seq<char>, titles: Seq<Seq<char>>, values: Seq<Seq<char>>) -> Seq<Seq<char>> {
    Seq::new(titles.len(), |i: int| date + " => "@ + titles[i] + ": "@ + values[i])
}

/// The line that separates the inputs from the run in the log.
pub open spec fn separator_line() -> Seq<char> {
    "--------------------"@
}

/// The log file of a run of recipe `name` started at `date`.
pub open spec fn run_log_file(date: Seq<char>, name: Seq<char>) -> Seq<char> {
    date + "| Run - "@ + name
}

/// A continue button's place one lower, never below zero.
pub open spec fn stepped_down(c: Option<usize>) -> Option<usize> {
    match c {
        Some(n) => Some(if n == 0 {
            0usize
        } else {
            (n - 1) as usize
        }),
        None => None,
    }
}

/// The run tab after message `m` at `date`.
pub open spec fn run_tab_after(v: RunTabView, m: RunMessage) -> RunTabView {
    match m {
        RunMessage::RecipieChanged(name) => RunTabView { search_value: Some(name@), ..v },
        RunMessage::Continue => RunTabView {
            continue_numbers: v.continue_numbers.map_values(|c: Option<usize>| stepped_down(c)),
            ..v
        },
        RunMessage::LargeStart => RunTabView { state: RunState::BeforeRequiredInput, ..v },
        RunMessage::Start => if allows(v.before_values) {
            RunTabView { state: RunState::Standard, ..v }
        } else {
            v
        },
        RunMessage::Finish => if allows(v.after_values) {
            RunTabView { state: RunState::Standard, ..v }
        } else {
            v
        },
        RunMessage::Cancel => RunTabView {
            before_values: Seq::new(v.before_values.len(), |i: int| Seq::<char>::empty()),
            state: RunState::Standard,
            ..v
        },
        RunMessage::RequiredBeforeInput(i, val) => RunTabView {
            before_values: v.before_values.update(i as int, val@),
            ..v
        },
        RunMessage::RequiredAfterInput(i, val) => RunTabView {
            after_values: v.after_values.update(i as int, val@),
            ..v
        },
        _ => v,
    }
}

/// What the run tab asks for after message `m` at `date`: the recipe read
/// when one is chosen; the run started, with its log file and the entered
/// inputs logged, when the inputs allow it; the inputs after the run logged
/// and the log closed when they allow it.
pub open spec fn run_tab_action(v: RunTabView, m: RunMessage, date: Seq<char>) -> RunTabActionView {
    match m {
        RunMessage::RecipieChanged(_) => RunTabActionView::Load,
        RunMessage::Start => if allows(v.before_values) {
            RunTabActionView::StartRun(
                run_log_file(date, v.search_value->0),
                input_lines(date, v.before_titles, v.before_values).push(separator_line()),
            )
        } else {
            RunTabActionView::Nothing
        },
        RunMessage::Finish => if allows(v.after_values) {
            RunTabActionView::FinishRun(
                seq![separator_line()] + input_lines(date, v.after_titles, v.after_values),
            )
        } else {
            RunTabActionView::Nothing
        },
        _ => RunTabActionView::Nothing,
    }
}

/// Whether the run tab can take message `m`: a start that goes ahead has a
/// recipe chosen, and an entered value is for an input that is asked.
pub open spec fn run_message_fits(v: RunTabView, m: RunMessage) -> bool {
    match m {
        RunMessage::Start => allows(v.before_values) ==> v.search_value is Some,
        RunMessage::RequiredBeforeInput(i, _) => i < v.before_values.len(),
        RunMessage::RequiredAfterInput(i, _) => i < v.after_values.len(),
        _ => true,
    }
}

/// The log lines of the entered inputs.
fn log_inputs(date: &str, titles: &Vec<String>, values: &Vec<String>) -> (r: Vec<String>)
    requires
        values@.len() == titles@.len(),
    ensures
        views(r@) == input_lines(date@, views(titles@), views(values@)),
{
    let ghost target = input_lines(date@, views(titles@), views(values@));
    let mut r: Vec<String> = Vec::new();
    let mut i: usize = 0;
    while i < titles.len()
        invariant
            i <= titles@.len(),
            values@.len() == titles@.len(),
            target == input_lines(date@, views(titles@), views(values@)),
            views(r@) == target.take(i as int),
        decreases titles@.len() - i,
    {
        let mut l = concat(date, " => ");
        append_str(&mut l, titles[i].as_str());
        append_str(&mut l, ": ");
        append_str(&mut l, values[i].as_str());
        let ghost prev = r@;
        r.push(l);
        proof {
            lemma_views_push(prev, l);
            assert(views(titles@)[i as int] == titles@[i as int]@);
            assert(views(values@)[i as int] == values@[i as int]@);
            assert(target[i as int] == l@);
            assert(target.take(i + 1) =~= target.take(i as int).push(target[i as int]));
        }
        i = i + 1;
    }
    proof {
        assert(target.take(titles@.len() as int) =~= target);
    }
    r
}

impl RunTab {
    /// The run tab before a recipe is chosen.
    pub fn new() -> (r: RunTab)
        ensures
            r@ == (RunTabView {
                search_value: None,
                recipe: None,
                continue_numbers: Seq::empty(),
                state: RunState::Standard,
                before_titles: Seq::empty(),
                before_values: Seq::empty(),
                after_titles: Seq::empty(),
                after_values: Seq::empty(),
            }),
    {
        let r = RunTab {
            search_value: None,
            recipe: None,
            continue_numbers: Vec::new(),
            state: RunState::Standard,
            before_titles: Vec::new(),
            before_values: Vec::new(),
            after_titles: Vec::new(),
            after_values: Vec::new(),
        };
        assert(r@.before_titles =~= Seq::<Seq<char>>::empty());
        assert(r@.before_values =~= Seq::<Seq<char>>::empty());
        assert(r@.after_titles =~= Seq::<Seq<char>>::empty());
        assert(r@.after_values =~= Seq::<Seq<char>>::empty());
        assert(r@.continue_numbers =~= Seq::<Option<usize>>::empty());
        r
    }

    /// Chooses recipe `name`.
    fn set_search(&mut self, name: String)
        ensures
            final(self)@ == (RunTabView { search_value: Some(name@), ..old(self)@ }),
    {
        self.search_value = Some(name);
    }

    /// Takes message `m` at `date` (the time its log lines carry), as
    /// `run_tab_after` and `run_tab_action` say.
    pub fn update(&mut self, m: RunMessage, date: &str) -> (r: RunTabAction)
        requires
            run_tab_wf(old(self)@),
            run_message_fits(old(self)@, m),
        ensures
            final(self)@ == run_tab_after(old(self)@, m),
            run_tab_action_view(r) == run_tab_action(old(self)@, m, date@),
            run_tab_wf(final(self)@),
    {
        match m {
            RunMessage::Continue => {
                self.continue_numbers = stepped_all(&self.continue_numbers);
                RunTabAction::Nothing
            },
            RunMessage::LargeStart => {
                self.state = RunState::BeforeRequiredInput;
                RunTabAction::Nothing
            },
            RunMessage::Start => {
                if inputs_allow(&self.before_values) {
                    let name = match &self.search_value {
                        Some(n) => n.as_str(),
                        None => "",
                    };
                    let mut file = concat(date, "| Run - ");
                    append_str(&mut file, name);
                    let mut lines = log_inputs(date, &self.before_titles, &self.before_values);
                    let ghost before = views(lines@);
                    lines.push(copy_str("--------------------"));
                    assert(views(lines@) =~= before.push(separator_line()));
                    self.state = RunState::Standard;
                    RunTabAction::StartRun(file, lines)
                } else {
                    RunTabAction::Nothing
                }
            },
            RunMessage::Finish => {
                if inputs_allow(&self.after_values) {
                    let mut lines: Vec<String> = Vec::new();
                    lines.push(copy_str("--------------------"));
                    let rest = log_inputs(date, &self.after_titles, &self.after_values);
                    let mut k: usize = 0;
                    assert(views(lines@) =~= seq![separator_line()] + views(rest@).take(0));
                    while k < rest.len()
                        invariant
                            k <= rest@.len(),
                            views(lines@) == seq![separator_line()] + views(rest@).take(k as int),
                        decreases rest@.len() - k,
                    {
                        let x = copy_str(rest[k].as_str());
                        let ghost prev = lines@;
                        lines.push(x);
                        proof {
                            lemma_views_push(prev, x);
                            assert(views(rest@)[k as int] == rest@[k as int]@);
                            assert(views(rest@).take(k + 1) =~= views(rest@).take(k as int).push(x@));
                            assert(views(lines@) =~= seq![separator_line()] + views(rest@).take(k + 1));
                        }
                        k = k + 1;
                    }
                    assert(views(rest@).take(rest@.len() as int) =~= views(rest@));
                    self.state = RunState::Standard;
                    RunTabAction::FinishRun(lines)
                } else {
                    RunTabAction::Nothing
                }
            },
            RunMessage::Cancel => {
                let n = self.before_values.len();
                assert(views(self.before_values@).len() == self.before_values@.len());
                self.before_values = empty_values(n);
                self.state = RunState::Standard;
                RunTabAction::Nothing
            },
            RunMessage::RequiredBeforeInput(i, val) => {
                let ghost prev = views(self.before_values@);
                let ghost vv = val@;
                self.before_values.set(i, val);
                assert(views(self.before_values@) =~= prev.update(i as int, vv));
                RunTabAction::Nothing
            },
            RunMessage::RequiredAfterInput(i, val) => {
                let ghost prev = views(self.after_values@);
                let ghost vv = val@;
                self.after_values.set(i, val);
                assert(views(self.after_values@) =~= prev.update(i as int, vv));
                RunTabAction::Nothing
            },
            RunMessage::RecipieChanged(name) => {
                self.set_search(name);
                RunTabAction::Load
            },
            _ => RunTabAction::Nothing,
        }
    }

    /// The chosen recipe as read (`None` where it could not be read): the
    /// continue buttons of its waiting steps are numbered, and the inputs it
    /// asks are set up empty; an unread recipe is dropped and the inputs
    /// kept.
    pub fn recipe_loaded(&mut self, recipe: Option<RunRecipe>)
        requires
            recipe matches Some(r) ==> r.steps@.len() < usize::MAX,
        ensures
            run_tab_wf(old(self)@) ==> run_tab_wf(final(self)@),
            final(self)@.recipe == run_recipe_view(recipe),
            final(self)@.search_value == old(self)@.search_value,
            final(self)@.state == old(self)@.state,
            recipe matches Some(r) ==> {
                &&& final(self)@.before_titles == views(r.before@)
                &&& final(self)@.before_values == Seq::new(r.before@.len(), |i: int| Seq::<char>::empty())
                &&& final(self)@.after_titles == views(r.after@)
                &&& final(self)@.after_values == Seq::new(r.after@.len(), |i: int| Seq::<char>::empty())
                &&& final(self)@.continue_numbers.len() == r.steps@.len()
                &&& forall|i: int|
                    0 <= i < r.steps@.len() ==> #[trigger] final(self)@.continue_numbers[i] == if r.steps@[i].wait {
                        Some((waits_before(r.steps@.map_values(|st: Step| st.wait), i) + 1) as usize)
                    } else {
                        None
                    }
            },
            recipe is None ==> {
                &&& final(self)@.before_titles == old(self)@.before_titles
                &&& final(self)@.before_values == old(self)@.before_values
                &&& final(self)@.after_titles == old(self)@.after_titles
                &&& final(self)@.after_values == old(self)@.after_values
                &&& final(self)@.continue_numbers == old(self)@.continue_numbers
            },
    {
        match recipe {
            Some(r) => {
                let mut waits: Vec<bool> = Vec::new();
                let mut k: usize = 0;
                while k < r.steps.len()
                    invariant
                        k <= r.steps@.len(),
                        waits@ == r.steps@.map_values(|st: Step| st.wait).take(k as int),
                    decreases r.steps@.len() - k,
                {
                    waits.push(r.steps[k].wait);
                    assert(waits@ =~= r.steps@.map_values(|st: Step| st.wait).take(k + 1));
                    k = k + 1;
                }
                assert(waits@ =~= r.steps@.map_values(|st: Step| st.wait));
                self.continue_numbers = continue_numbers(&waits);
                self.before_titles = copy_strings(&r.before);
                self.before_values = empty_values(r.before.len());
                self.after_titles = copy_strings(&r.after);
                self.after_values = empty_values(r.after.len());
                self.recipe = Some(r);
            },
            None => {
                self.recipe = None;
            },
        }
    }

    /// Where the tab goes once a run ends: to the inputs asked after it
    /// where the recipe has some.
    pub fn finish_run(&mut self)
        ensures
            final(self)@ == (RunTabView {
                state: if old(self)@.after_values.len() > 0 {
                    RunState::AfterRequiredInput
                } else {
                    RunState::Standard
                },
                ..old(self)@
            }),
    {
        assert(views(self.after_values@).len() == self.after_values@.len());
        self.state = after_run_state(self.after_values.len());
    }
}

/// Every continue button one lower, never below zero.
fn stepped_all(nums: &Vec<Option<usize>>) -> (r: Vec<Option<usize>>)
    ensures
        r@ == nums@.map_values(|c: Option<usize>| stepped_down(c)),
{
    let mut out: Vec<Option<usize>> = Vec::new();
    let mut k: usize = 0;
    while k < nums.len()
        invariant
            k <= nums@.len(),
            out@ == nums@.map_values(|c: Option<usize>| stepped_down(c)).take(k as int),
        decreases nums@.len() - k,
    {
        let c = match nums[k] {
            Some(n) => Some(step_down(n)),
            None => None,
        };
        out.push(c);
        assert(out@ =~= nums@.map_values(|c: Option<usize>| stepped_down(c)).take(k + 1));
        k = k + 1;
    }
    assert(nums@.map_values(|c: Option<usize>| stepped_down(c)).take(nums@.len() as int) =~= nums@.map_values(
        |c: Option<usize>| stepped_down(c),
    ));
    out
}

/// `n` empty values.
fn empty_values(n: usize) -> (r: Vec<String>)
    ensures
        views(r@) == Seq::new(n as nat, |i: int| Seq::<char>::empty()),
{
    let mut vals: Vec<String> = Vec::new();
    let mut k: usize = 0;
    while k < n
        invariant
            k <= n,
            views(vals@) == Seq::new(k as nat, |i: int| Seq::<char>::empty()),
        decreases n - k,
    {
        let e = String::new();
        let ghost prev = vals@;
        vals.push(e);
        proof {
            lemma_views_push(prev, e);
            assert(views(vals@) =~= Seq::new((k + 1) as nat, |i: int| Seq::<char>::empty()));
        }
        k = k + 1;
    }
    vals
}

} // verus!
