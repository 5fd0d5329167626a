//! The recipe builder: the time fields of a step, the steps of the recipe
//! under edit and their numbering, the step about to be added, and what the
//! builder does with each message.
use vstd::prelude::*;
use crate::text::{append_str, chars_of, concat, copy_str, string_of, decimal_digits, format_u64, parse_unsigned, parse_usize, views};
use crate::naming::contains_name;
use crate::nodes::{first_index, lemma_first_index, lemma_first_index_found};
use crate::style::Theme;
use crate::config::SaveBarMessage;
use crate::logger::{os_clean, replace_os_char_on, windows_forbidden};
use crate::run::{Step, StepRecord};
use crate::text::{copy_strings, remove_all, remove_all_str};

verus! {

/// The value of a time field as `parse::<usize>()` reads it.
pub open spec fn field_number(s: Seq<char>) -> Option<nat> {
    parse_unsigned(s, usize::MAX as int)
}

/// The smaller of two numbers.
pub open spec fn at_most(v: nat, max: nat) -> nat {
    if v <= max {
        v
    } else {
        max
    }
}

/// A time field after `input` was typed into it: an empty input empties the
/// field, a number is kept up to `max`, anything else leaves the field as it
/// was.
pub open spec fn typed_field(input: Seq<char>, current: Seq<char>, max: nat) -> Seq<char> {
    if input.len() == 0 {
        Seq::empty()
    } else {
        match field_number(input) {
            Some(v) => decimal_digits(at_most(v, max)),
            None => current,
        }
    }
}

/// A time field one up: its number (zero where it holds none) plus one, at
/// most `max`.
pub open spec fn incremented_field(value: Seq<char>, max: nat) -> Seq<char> {
    let v = match field_number(value) {
        Some(v) => v,
        None => 0,
    };
    decimal_digits(at_most(v + 1, max))
}

/// A field that holds `0`, `1` or nothing.
pub open spec fn at_bottom(value: Seq<char>) -> bool {
    value == seq!['0'] || value == seq!['1'] || value.len() == 0
}

/// A time field one down: empty from `0`, `1` or empty; else its number
/// (one where it holds none) minus one.
pub open spec fn decremented_field(value: Seq<char>) -> Seq<char> {
    if at_bottom(value) {
        Seq::empty()
    } else {
        let v = match field_number(value) {
            Some(v) => v,
            None => 1,
        };
        decimal_digits((v - 1) as nat)
    }
}

/// Whether a field can be counted down without going below zero: it is at
/// the bottom or does not read as zero (`00` or `+0` do).
pub open spec fn decrement_defined(value: Seq<char>) -> bool {
    at_bottom(value) || field_number(value) != Some(0nat)
}

/// Whether a field can be counted up without passing the largest `usize`.
pub open spec fn increment_defined(value: Seq<char>) -> bool {
    field_number(value) != Some(usize::MAX as nat)
}

/// Whether a time field is empty or holds a whole number.
pub open spec fn field_ok(s: Seq<char>) -> bool {
    s.len() == 0 || field_number(s) is Some
}

/// Whether the three time fields of a step are acceptable.
pub open spec fn times_ok(hours: Seq<char>, mins: Seq<char>, secs: Seq<char>) -> bool {
    field_ok(hours) && field_ok(mins) && field_ok(secs)
}

/// Writes `n` in decimal.
fn format_usize(n: usize) -> (r: String)
    ensures
        r@ == decimal_digits(n as nat),
{
    format_u64(n as u64)
}

/// The field after `input` was typed into a field holding `current`.
pub fn typed_time(input: &str, current: &str, max: usize) -> (r: String)
    ensures
        r@ == typed_field(input@, current@, max as nat),
{
    if input.is_empty() {
        let r = String::new();
        assert(r@ =~= Seq::<char>::empty());
        return r;
    }
    match parse_usize(input) {
        Some(v) => format_usize(if v <= max {
            v
        } else {
            max
        }),
        None => copy_str(current),
    }
}

/// The field one up, at most `max`.
pub fn increment_time(value: &str, max: usize) -> (r: String)
    requires
        increment_defined(value@),
    ensures
        r@ == incremented_field(value@, max as nat),
{
    let v = match parse_usize(value) {
        Some(v) => v,
        None => 0,
    };
    let up = v + 1;
    format_usize(if up <= max {
        up
    } else {
        max
    })
}

/// Whether a field holds `0`, `1` or nothing.
fn is_at_bottom(value: &str) -> (r: bool)
    ensures
        r == at_bottom(value@),
{
    let c = crate::text::chars_of(value);
    if c.len() == 0 {
        return true;
    }
    if c.len() == 1 && (c[0] == '0' || c[0] == '1') {
        assert(c@ =~= seq![c[0]]);
        return true;
    }
    proof {
        if c@.len() == 1 {
            assert(c@ != seq!['0'] && c@ != seq!['1']) by {
                if c@ == seq!['0'] {
                    assert(c@[0] == '0');
                }
                if c@ == seq!['1'] {
                    assert(c@[0] == '1');
                }
            }
        }
    }
    false
}

/// The field one down.
pub fn decrement_time(value: &str) -> (r: String)
    requires
        decrement_defined(value@),
    ensures
        r@ == decremented_field(value@),
{
    if is_at_bottom(value) {
        let r = String::new();
        assert(r@ =~= Seq::<char>::empty());
        return r;
    }
    let v = match parse_usize(value) {
        Some(v) => v,
        None => 1,
    };
    format_usize(v - 1)
}

/// Whether a time field is acceptable.
fn time_field_ok(s: &String) -> (r: bool)
    ensures
        r == field_ok(s@),
{
    s.as_str().is_empty() || parse_usize(s.as_str()).is_some()
}

/// Whether the time fields of a step are acceptable.
pub fn validate_times(hours: &String, mins: &String, secs: &String) -> (r: bool)
    ensures
        r == times_ok(hours@, mins@, secs@),
{
    time_field_ok(hours) && time_field_ok(mins) && time_field_ok(secs)
}

/// Which fields of a step are in error.
#[derive(Clone, Copy, Debug, PartialEq, Eq, Structural)]
pub struct StepErrors {
    pub destination: bool,
    pub action: bool,
    pub time: bool,
}

impl StepErrors {
    /// The three flags in turn: destination, action, time.
    pub fn all(&self) -> (r: Vec<bool>)
        ensures
            r@ == seq![self.destination, self.action, self.time],
    {
        vec![self.destination, self.action, self.time]
    }
}

/// The text of an optional string.
pub open spec fn opt_view(o: Option<String>) -> Option<Seq<char>> {
    match o {
        Some(s) => Some(s@),
        None => None,
    }
}

/// A copy of an optional string.
pub fn copy_opt(o: &Option<String>) -> (r: Option<String>)
    ensures
        opt_view(r) == opt_view(*o),
{
    match o {
        Some(s) => Some(copy_str(s.as_str())),
        None => None,
    }
}

/// Whether a chosen name is among `names` (nothing chosen is not).
pub open spec fn chosen_among(names: Seq<Seq<char>>, o: Option<Seq<char>>) -> bool {
    match o {
        Some(n) => names.contains(n),
        None => false,
    }
}

/// Whether a chosen name is among `names`.
fn is_chosen_among(names: &Vec<String>, o: &Option<String>) -> (r: bool)
    ensures
        r == chosen_among(views(names@), opt_view(*o)),
{
    match o {
        Some(n) => contains_name(names, n.as_str()),
        None => false,
    }
}

/// The mathematical value of a step of the recipe under edit.
pub struct BuildStepView {
    pub step_num: nat,
    pub steps_len: nat,
    pub destination: Option<Seq<char>>,
    pub hover: bool,
    pub action: Option<Seq<char>>,
    pub secs: Seq<char>,
    pub mins: Seq<char>,
    pub hours: Seq<char>,
    pub wait: bool,
    pub editing: bool,
    pub errors: StepErrors,
}

/// A step of the recipe under edit: its number in the list, the number of
/// steps the list had when it was last counted, what it does, whether it is
/// open for editing, and which of its fields are in error.
#[derive(Debug)]
pub struct BuildStep {
    pub step_num: usize,
    pub steps_len: usize,
    pub selected_destination: Option<String>,
    pub hover: bool,
    pub selected_action: Option<String>,
    pub secs_value: String,
    pub mins_value: String,
    pub hours_value: String,
    pub wait: bool,
    pub editing: bool,
    pub errors: StepErrors,
}

impl View for BuildStep {
    type V = BuildStepView;

    open spec fn view(&self) -> BuildStepView {
        BuildStepView {
            step_num: self.step_num as nat,
            steps_len: self.steps_len as nat,
            destination: opt_view(self.selected_destination),
            hover: self.hover,
            action: opt_view(self.selected_action),
            secs: self.secs_value@,
            mins: self.mins_value@,
            hours: self.hours_value@,
            wait: self.wait,
            editing: self.editing,
            errors: self.errors,
        }
    }
}

/// A change to one step.
#[derive(Clone, Debug)]
pub enum StepMessage {
    NewDestination(String),
    NewAction(String),
    SecsChanged(String),
    MinsChanged(String),
    HoursChanged(String),
    NewNum(usize),
    ToggleHover(bool),
    ToggleWait(bool),
    HoursIncrement,
    HoursDecrement,
    MinsIncrement,
    MinsDecrement,
    SecsIncrement,
    SecsDecrement,
    Edit,
    Delete,
    Okay,
}

/// The largest number of hours a step can take.
pub const MAX_HOURS: usize = 99;

/// The largest number of minutes or seconds a field can hold.
pub const MAX_MINS: usize = 59;

/// A step as it is made: closed, with the error flags its values call for.
pub open spec fn new_step_view(
    step_num: nat,
    steps_len: nat,
    nodes: Seq<Seq<char>>,
    actions: Seq<Seq<char>>,
    destination: Option<Seq<char>>,
    hover: bool,
    action: Option<Seq<char>>,
    hours: Seq<char>,
    mins: Seq<char>,
    secs: Seq<char>,
    wait: bool,
) -> BuildStepView {
    BuildStepView {
        step_num,
        steps_len,
        destination,
        hover,
        action,
        secs,
        mins,
        hours,
        wait,
        editing: false,
        errors: StepErrors {
            destination: !chosen_among(nodes, destination),
            action: !chosen_among(actions, action),
            time: !times_ok(hours, mins, secs),
        },
    }
}

/// Whether a message can be applied to a step without a number running
/// past the ends of `usize`.
pub open spec fn step_message_fits(v: BuildStepView, m: StepMessage) -> bool {
    match m {
        StepMessage::HoursIncrement => increment_defined(v.hours),
        StepMessage::MinsIncrement => increment_defined(v.mins),
        StepMessage::SecsIncrement => increment_defined(v.secs),
        StepMessage::HoursDecrement => decrement_defined(v.hours),
        StepMessage::MinsDecrement => decrement_defined(v.mins),
        StepMessage::SecsDecrement => decrement_defined(v.secs),
        _ => true,
    }
}

/// A step after a message: a chosen destination or action is flagged when
/// no node or action has its name; a typed time field is checked with the
/// other two; the counters move a field up or down; `Edit` and `Okay` open
/// and close the step; `Delete` and `NewNum` are the list's business.
pub open spec fn step_after(
    v: BuildStepView,
    m: StepMessage,
    nodes: Seq<Seq<char>>,
    actions: Seq<Seq<char>>,
) -> BuildStepView {
    match m {
        StepMessage::NewDestination(d) => BuildStepView {
            destination: Some(d@),
            errors: StepErrors { destination: !nodes.contains(d@), ..v.errors },
            ..v
        },
        StepMessage::NewAction(a) => BuildStepView {
            action: Some(a@),
            errors: StepErrors { action: !actions.contains(a@), ..v.errors },
            ..v
        },
        StepMessage::ToggleHover(b) => BuildStepView { hover: b, ..v },
        StepMessage::ToggleWait(b) => BuildStepView { wait: b, ..v },
        StepMessage::HoursChanged(h) => {
            let hours = typed_field(h@, v.hours, MAX_HOURS as nat);
            BuildStepView {
                hours,
                errors: StepErrors { time: !times_ok(hours, v.mins, v.secs), ..v.errors },
                ..v
            }
        },
        StepMessage::MinsChanged(t) => {
            let mins = typed_field(t@, v.mins, MAX_MINS as nat);
            BuildStepView {
                mins,
                errors: StepErrors { time: !times_ok(v.hours, mins, v.secs), ..v.errors },
                ..v
            }
        },
        StepMessage::SecsChanged(t) => {
            let secs = typed_field(t@, v.secs, MAX_MINS as nat);
            BuildStepView {
                secs,
                errors: StepErrors { time: !times_ok(v.hours, v.mins, secs), ..v.errors },
                ..v
            }
        },
        StepMessage::HoursIncrement => BuildStepView {
            hours: incremented_field(v.hours, MAX_HOURS as nat),
            ..v
        },
        StepMessage::MinsIncrement => BuildStepView {
            mins: incremented_field(v.mins, MAX_MINS as nat),
            ..v
        },
        StepMessage::SecsIncrement => BuildStepView {
            secs: incremented_field(v.secs, MAX_MINS as nat),
            ..v
        },
        StepMessage::HoursDecrement => BuildStepView { hours: decremented_field(v.hours), ..v },
        StepMessage::MinsDecrement => BuildStepView { mins: decremented_field(v.mins), ..v },
        StepMessage::SecsDecrement => BuildStepView { secs: decremented_field(v.secs), ..v },
        StepMessage::Okay => BuildStepView { editing: false, ..v },
        StepMessage::Edit => BuildStepView { editing: true, ..v },
        StepMessage::Delete => v,
        StepMessage::NewNum(_) => v,
    }
}

/// What a step's error line says: the first of its flagged fields, a
/// missing name quoted.
pub open spec fn step_error_text(v: BuildStepView) -> Option<Seq<char>> {
    if v.errors.destination {
        match v.destination {
            Some(d) => Some(
                "Selected destination not found in Nodes.\nEither select another destination, or go to\nAdvanced -> Nodes and rename/add a node with the name '"@
                    + d + "'."@,
            ),
            None => Some("Select a destination."@),
        }
    } else if v.errors.action {
        match v.action {
            Some(a) => Some(
                "Selected action not found.\nEither select another action, or go to\nAdvanced -> Actions and rename/add an action with the name '"@
                    + a + "'."@,
            ),
            None => Some("Select an action."@),
        }
    } else if v.errors.time {
        Some("Time entries must be numbers with no decimals or fractions."@)
    } else {
        None
    }
}

impl BuildStep {
    /// A closed step with the given values; a destination or action that
    /// names no node or action, and time fields that are not whole numbers,
    /// are flagged.
    pub fn new(
        step_num: usize,
        steps_len: usize,
        node_names: &Vec<String>,
        action_names: &Vec<String>,
        selected_destination: Option<String>,
        hover: bool,
        selected_action: Option<String>,
        hours_value: String,
        mins_value: String,
        secs_value: String,
        wait: bool,
    ) -> (r: BuildStep)
        ensures
            r@ == new_step_view(
                step_num as nat,
                steps_len as nat,
                views(node_names@),
                views(action_names@),
                opt_view(selected_destination),
                hover,
                opt_view(selected_action),
                hours_value@,
                mins_value@,
                secs_value@,
                wait,
            ),
    {
        let destination = !is_chosen_among(node_names, &selected_destination);
        let action = !is_chosen_among(action_names, &selected_action);
        let time = !validate_times(&hours_value, &mins_value, &secs_value);
        BuildStep {
            step_num,
            steps_len,
            selected_destination,
            hover,
            selected_action,
            secs_value,
            mins_value,
            hours_value,
            wait,
            editing: false,
            errors: StepErrors { destination, action, time },
        }
    }

    /// A copy of the step.
    pub fn duplicate(&self) -> (r: BuildStep)
        ensures
            r@ == self@,
    {
        BuildStep {
            step_num: self.step_num,
            steps_len: self.steps_len,
            selected_destination: copy_opt(&self.selected_destination),
            hover: self.hover,
            selected_action: copy_opt(&self.selected_action),
            secs_value: copy_str(self.secs_value.as_str()),
            mins_value: copy_str(self.mins_value.as_str()),
            hours_value: copy_str(self.hours_value.as_str()),
            wait: self.wait,
            editing: self.editing,
            errors: self.errors,
        }
    }

    /// Applies a message to the step; `node_names` and `action_names` are
    /// the names a destination or an action is checked against.
    pub fn update(&mut self, message: StepMessage, node_names: &Vec<String>, action_names: &Vec<String>)
        requires
            step_message_fits(old(self)@, message),
        ensures
            final(self)@ == step_after(old(self)@, message, views(node_names@), views(action_names@)),
    {
        match message {
            StepMessage::NewDestination(destination) => {
                let missing = !contains_name(node_names, destination.as_str());
                self.selected_destination = Some(destination);
                self.errors.destination = missing;
            },
            StepMessage::NewAction(action) => {
                let missing = !contains_name(action_names, action.as_str());
                self.selected_action = Some(action);
                self.errors.action = missing;
            },
            StepMessage::ToggleHover(b) => self.hover = b,
            StepMessage::ToggleWait(b) => self.wait = b,
            StepMessage::HoursChanged(hours) => {
                self.hours_value = typed_time(hours.as_str(), self.hours_value.as_str(), MAX_HOURS);
                self.errors.time = !validate_times(&self.hours_value, &self.mins_value, &self.secs_value);
            },
            StepMessage::MinsChanged(mins) => {
                self.mins_value = typed_time(mins.as_str(), self.mins_value.as_str(), MAX_MINS);
                self.errors.time = !validate_times(&self.hours_value, &self.mins_value, &self.secs_value);
            },
            StepMessage::SecsChanged(secs) => {
                self.secs_value = typed_time(secs.as_str(), self.secs_value.as_str(), MAX_MINS);
                self.errors.time = !validate_times(&self.hours_value, &self.mins_value, &self.secs_value);
            },
            StepMessage::HoursIncrement => {
                self.hours_value = increment_time(self.hours_value.as_str(), MAX_HOURS);
            },
            StepMessage::MinsIncrement => {
                self.mins_value = increment_time(self.mins_value.as_str(), MAX_MINS);
            },
            StepMessage::SecsIncrement => {
                self.secs_value = increment_time(self.secs_value.as_str(), MAX_MINS);
            },
            StepMessage::HoursDecrement => {
                self.hours_value = decrement_time(self.hours_value.as_str());
            },
            StepMessage::MinsDecrement => {
                self.mins_value = decrement_time(self.mins_value.as_str());
            },
            StepMessage::SecsDecrement => {
                self.secs_value = decrement_time(self.secs_value.as_str());
            },
            StepMessage::Okay => self.editing = false,
            StepMessage::Edit => self.editing = true,
            StepMessage::Delete => {},
            StepMessage::NewNum(_) => {},
        }
    }

    /// The step's error line, if a field is flagged.
    pub fn error_message(&self) -> (r: Option<String>)
        ensures
            opt_view(r) == step_error_text(self@),
    {
        if self.errors.destination {
            match &self.selected_destination {
                Some(d) => {
                    let mut r = concat(
                        "Selected destination not found in Nodes.\nEither select another destination, or go to\nAdvanced -> Nodes and rename/add a node with the name '",
                        d.as_str(),
                    );
                    append_str(&mut r, "'.");
                    Some(r)
                },
                None => Some(copy_str("Select a destination.")),
            }
        } else if self.errors.action {
            match &self.selected_action {
                Some(a) => {
                    let mut r = concat(
                        "Selected action not found.\nEither select another action, or go to\nAdvanced -> Actions and rename/add an action with the name '",
                        a.as_str(),
                    );
                    append_str(&mut r, "'.");
                    Some(r)
                },
                None => Some(copy_str("Select an action.")),
            }
        } else if self.errors.time {
            Some(copy_str("Time entries must be numbers with no decimals or fractions."))
        } else {
            None
        }
    }
}

/// The values of a list of steps.
pub open spec fn step_views(s: Seq<BuildStep>) -> Seq<BuildStepView> {
    s.map_values(|b: BuildStep| b@)
}

/// A step with another number.
pub open spec fn with_number(v: BuildStepView, n: nat) -> BuildStepView {
    BuildStepView { step_num: n, ..v }
}

/// Where a step numbered `n` goes in a list ordered by number: after every
/// step whose number is not greater.
pub open spec fn num_slot(l: Seq<BuildStepView>, n: nat) -> int {
    match first_index(l, |e: BuildStepView| e.step_num > n) {
        Some(p) => p,
        None => l.len() as int,
    }
}

/// Steps ordered by number, smallest first; steps of equal number keep
/// their order.
pub open spec fn sort_by_num(s: Seq<BuildStepView>) -> Seq<BuildStepView>
    decreases s.len(),
{
    if s.len() == 0 {
        s
    } else {
        let l = sort_by_num(s.drop_last());
        l.insert(num_slot(l, s.last().step_num), s.last())
    }
}

/// A copy of a step with another number.
fn with_num(step: &BuildStep, n: usize) -> (r: BuildStep)
    ensures
        r@ == with_number(step@, n as nat),
{
    let mut r = step.duplicate();
    r.step_num = n;
    r
}

/// The steps ordered by number, smallest first, equal numbers in their
/// given order.
pub fn sort_steps(steps: &Vec<BuildStep>) -> (r: Vec<BuildStep>)
    ensures
        step_views(r@) == sort_by_num(step_views(steps@)),
{
    let ghost sv = step_views(steps@);
    let mut r: Vec<BuildStep> = Vec::new();
    let mut i: usize = 0;
    while i < steps.len()
        invariant
            i <= steps@.len(),
            sv == step_views(steps@),
            step_views(r@) == sort_by_num(sv.take(i as int)),
        decreases steps@.len() - i,
    {
        let n = steps[i].step_num;
        let ghost before = step_views(r@);
        let mut p: usize = 0;
        while p < r.len() && r[p].step_num <= n
            invariant
                p <= r@.len(),
                before == step_views(r@),
                forall|a: int| 0 <= a < p ==> #[trigger] before[a].step_num <= n,
            decreases r@.len() - p,
        {
            p = p + 1;
        }
        proof {
            lemma_first_index(before, |e: BuildStepView| e.step_num > n as nat, p as int);
            assert(sv.take(i + 1).drop_last() =~= sv.take(i as int));
            assert(sv.take(i + 1).last() == steps@[i as int]@);
        }
        let e = steps[i].duplicate();
        r.insert(p, e);
        proof {
            assert(step_views(r@) =~= before.insert(p as int, steps@[i as int]@));
        }
        i = i + 1;
    }
    proof {
        assert(sv.take(steps@.len() as int) =~= sv);
    }
    r
}

/// The number of the step at position `k` when step `i` is given number
/// `num`: the steps from position `num - 1` up to `i` move one down the
/// list (their number one up) when the step moves up; the steps after `i`
/// up to position `num - 1` move one up (their number one down) when it
/// moves down.
pub open spec fn moved_num(k: int, n: nat, i: int, num: nat) -> nat {
    if k == i {
        num
    } else if num <= i && num - 1 <= k < i {
        n + 1
    } else if num > i && i < k < num {
        (n - 1) as nat
    } else {
        n
    }
}

/// The steps with their numbers when step `i` is given number `num`.
pub open spec fn moved_numbers(s: Seq<BuildStepView>, i: int, num: nat) -> Seq<BuildStepView> {
    Seq::new(s.len(), |k: int| with_number(s[k], moved_num(k, s[k].step_num, i, num)))
}

/// The new number of the step at position `k`.
fn moved_num_at(k: usize, n: usize, i: usize, num: usize) -> (r: usize)
    requires
        1 <= num,
        num <= i && num - 1 <= k < i ==> n < usize::MAX,
        num > i && i < k < num ==> n >= 1,
    ensures
        r == moved_num(k as int, n as nat, i as int, num as nat),
{
    if k == i {
        num
    } else if num <= i && num - 1 <= k && k < i {
        n + 1
    } else if num > i && i < k && k < num {
        n - 1
    } else {
        n
    }
}

/// Whether step `i` can be given number `num`: the step is in the list,
/// `num` is at least one and, moving down, at most the list's length, and
/// no number it touches runs past the ends of `usize`.
pub open spec fn move_fits(s: Seq<BuildStepView>, i: int, num: nat) -> bool {
    &&& 0 <= i < s.len()
    &&& 1 <= num
    &&& num > i ==> num <= s.len()
    &&& num <= usize::MAX
    &&& forall|k: int| num <= i && num - 1 <= k < i ==> #[trigger] s[k].step_num < usize::MAX
    &&& forall|k: int| num > i && i < k < num ==> #[trigger] s[k].step_num >= 1
}

/// Gives step `i` number `num`, shifts the numbers between, and orders the
/// list by number.
pub fn move_step(steps: &mut Vec<BuildStep>, i: usize, num: usize)
    requires
        move_fits(step_views(old(steps)@), i as int, num as nat),
    ensures
        step_views(final(steps)@) == sort_by_num(moved_numbers(step_views(old(steps)@), i as int, num as nat)),
{
    let ghost target = moved_numbers(step_views(steps@), i as int, num as nat);
    let mut shifted: Vec<BuildStep> = Vec::new();
    let mut k: usize = 0;
    while k < steps.len()
        invariant
            k <= steps@.len(),
            move_fits(step_views(steps@), i as int, num as nat),
            target == moved_numbers(step_views(steps@), i as int, num as nat),
            step_views(shifted@) == target.take(k as int),
        decreases steps@.len() - k,
    {
        let st = &steps[k];
        assert(step_views(steps@)[k as int] == st@);
        assert(num <= i && num - 1 <= k < i ==> step_views(steps@)[k as int].step_num < usize::MAX);
        assert(num > i && i < k < num ==> step_views(steps@)[k as int].step_num >= 1);
        let n = moved_num_at(k, st.step_num, i, num);
        let ns = with_num(st, n);
        let ghost prev = shifted@;
        shifted.push(ns);
        proof {
            assert(step_views(prev).len() == prev.len());
            assert(target.len() == steps@.len());
            assert(prev.len() == k);
            assert(target[k as int] == ns@);
            assert forall|j: int| 0 <= j < k + 1 implies #[trigger] step_views(shifted@)[j] == target.take(k + 1)[j] by {
                if j < k {
                    assert(shifted@[j] == prev[j]);
                    assert(step_views(prev)[j] == target.take(k as int)[j]);
                }
            }
            assert(step_views(shifted@) =~= target.take(k + 1));
        }
        k = k + 1;
    }
    proof {
        assert(target.take(steps@.len() as int) =~= target);
    }
    *steps = sort_steps(&shifted);
}

/// Steps numbered from one in list order, each told the list's length.
pub open spec fn renumbered(s: Seq<BuildStepView>) -> Seq<BuildStepView> {
    Seq::new(s.len(), |k: int| BuildStepView { step_num: (k + 1) as nat, steps_len: s.len(), ..s[k] })
}

/// Removes step `i` and numbers the rest from one.
pub fn delete_step(steps: &mut Vec<BuildStep>, i: usize)
    requires
        i < old(steps)@.len(),
    ensures
        step_views(final(steps)@) == renumbered(step_views(old(steps)@).remove(i as int)),
{
    let ghost rest = step_views(steps@).remove(i as int);
    let removed = steps.remove(i);
    proof {
        assert(step_views(steps@) =~= rest);
    }
    let len = steps.len();
    let mut out: Vec<BuildStep> = Vec::new();
    let mut k: usize = 0;
    while k < len
        invariant
            k <= len,
            len == steps@.len(),
            rest == step_views(steps@),
            step_views(out@) == renumbered(rest).take(k as int),
        decreases len - k,
    {
        assert(rest[k as int] == steps@[k as int]@);
        let mut st = with_num(&steps[k], k + 1);
        st.steps_len = len;
        let ghost prev = out@;
        out.push(st);
        proof {
            assert(step_views(prev).len() == prev.len());
            assert(renumbered(rest).len() == len);
            assert(prev.len() == k);
            assert forall|j: int| 0 <= j < k + 1 implies #[trigger] step_views(out@)[j] == renumbered(rest).take(k + 1)[j] by {
                if j < k {
                    assert(out@[j] == prev[j]);
                    assert(step_views(prev)[j] == renumbered(rest).take(k as int)[j]);
                }
            }
            assert(step_views(out@) =~= renumbered(rest).take(k + 1));
        }
        k = k + 1;
    }
    proof {
        assert(renumbered(rest).take(len as int) =~= renumbered(rest));
    }
    *steps = out;
}

/// The numbers of the steps when a step numbered `num` is added: the steps
/// from position `num - 1` on move one down the list.
pub open spec fn added_numbers(s: Seq<BuildStepView>, num: nat) -> Seq<BuildStepView> {
    Seq::new(
        s.len(),
        |k: int|
            if num - 1 <= k {
                with_number(s[k], s[k].step_num + 1)
            } else {
                s[k]
            },
    )
}

/// Steps each told the list's length.
pub open spec fn with_len(s: Seq<BuildStepView>) -> Seq<BuildStepView> {
    Seq::new(s.len(), |k: int| BuildStepView { steps_len: s.len(), ..s[k] })
}

/// Whether a step numbered `num` can be added: `num` is at least one, the
/// list can grow, and no number it moves runs past the end of `usize`.
pub open spec fn add_fits(s: Seq<BuildStepView>, num: nat) -> bool {
    &&& 1 <= num
    &&& s.len() < usize::MAX
    &&& forall|k: int| num - 1 <= k < s.len() ==> #[trigger] s[k].step_num < usize::MAX
}

/// Tells every step the list's length.
fn set_steps_len(steps: &mut Vec<BuildStep>)
    ensures
        step_views(final(steps)@) == with_len(step_views(old(steps)@)),
{
    let ghost before = step_views(steps@);
    let len = steps.len();
    let mut out: Vec<BuildStep> = Vec::new();
    let mut k: usize = 0;
    while k < len
        invariant
            k <= len,
            len == steps@.len(),
            before == step_views(steps@),
            step_views(out@) == with_len(before).take(k as int),
        decreases len - k,
    {
        assert(before[k as int] == steps@[k as int]@);
        let mut st = steps[k].duplicate();
        st.steps_len = len;
        let ghost prev = out@;
        out.push(st);
        proof {
            assert(step_views(prev).len() == prev.len());
            assert(with_len(before).len() == len);
            assert(prev.len() == k);
            assert forall|j: int| 0 <= j < k + 1 implies #[trigger] step_views(out@)[j] == with_len(before).take(k + 1)[j] by {
                if j < k {
                    assert(out@[j] == prev[j]);
                    assert(step_views(prev)[j] == with_len(before).take(k as int)[j]);
                }
            }
            assert(step_views(out@) =~= with_len(before).take(k + 1));
        }
        k = k + 1;
    }
    proof {
        assert(with_len(before).take(len as int) =~= with_len(before));
    }
    *steps = out;
}

/// Adds a step under its own number: the steps from that position on move
/// one down, the list is ordered by number, and every step is told the new
/// length.
pub fn insert_step(steps: &mut Vec<BuildStep>, new_step: BuildStep)
    requires
        add_fits(step_views(old(steps)@), new_step.step_num as nat),
    ensures
        step_views(final(steps)@) == with_len(
            sort_by_num(added_numbers(step_views(old(steps)@), new_step.step_num as nat).push(new_step@)),
        ),
{
    let num = new_step.step_num;
    let ghost target = added_numbers(step_views(steps@), num as nat);
    let mut shifted: Vec<BuildStep> = Vec::new();
    let mut k: usize = 0;
    while k < steps.len()
        invariant
            k <= steps@.len(),
            add_fits(step_views(steps@), num as nat),
            target == added_numbers(step_views(steps@), num as nat),
            step_views(shifted@) == target.take(k as int),
        decreases steps@.len() - k,
    {
        let st = &steps[k];
        assert(step_views(steps@)[k as int] == st@);
        let ns = if num - 1 <= k {
            assert(step_views(steps@)[k as int].step_num < usize::MAX);
            with_num(st, st.step_num + 1)
        } else {
            st.duplicate()
        };
        let ghost prev = shifted@;
        shifted.push(ns);
        proof {
            assert(step_views(prev).len() == prev.len());
            assert(target.len() == steps@.len());
            assert(prev.len() == k);
            assert(target[k as int] == ns@);
            assert forall|j: int| 0 <= j < k + 1 implies #[trigger] step_views(shifted@)[j] == target.take(k + 1)[j] by {
                if j < k {
                    assert(shifted@[j] == prev[j]);
                    assert(step_views(prev)[j] == target.take(k as int)[j]);
                }
            }
            assert(step_views(shifted@) =~= target.take(k + 1));
        }
        k = k + 1;
    }
    let ghost new_view = new_step@;
    shifted.push(new_step);
    proof {
        assert(target.take(target.len() as int) =~= target);
        assert(step_views(shifted@) =~= target.push(new_view));
    }
    let mut sorted = sort_steps(&shifted);
    set_steps_len(&mut sorted);
    *steps = sorted;
}

/// Ordering keeps the number of steps.
proof fn lemma_sort_len(t: Seq<BuildStepView>)
    ensures
        sort_by_num(t).len() == t.len(),
    decreases t.len(),
{
    if t.len() > 0 {
        let l = sort_by_num(t.drop_last());
        lemma_sort_len(t.drop_last());
        let q = num_slot(l, t.last().step_num);
        lemma_first_index_found(l, |e: BuildStepView| e.step_num > t.last().step_num);
        assert(0 <= q <= l.len());
    }
}

/// Whether no two steps share a number.
pub open spec fn distinct_numbers(t: Seq<BuildStepView>) -> bool {
    forall|a: int, b: int| 0 <= a < b < t.len() ==> t[a].step_num != t[b].step_num
}

/// Whether the steps are numbered from one in list order.
pub open spec fn numbered(s: Seq<BuildStepView>) -> bool {
    forall|k: int| 0 <= k < s.len() ==> #[trigger] s[k].step_num == k + 1
}

/// Steps numbered from one in list order, nothing else changed.
pub open spec fn numbered_from_one(u: Seq<BuildStepView>) -> Seq<BuildStepView> {
    Seq::new(u.len(), |k: int| with_number(u[k], (k + 1) as nat))
}

/// Ordering steps of distinct numbers gives the same number of steps, each
/// one of the given steps, with numbers rising strictly.
proof fn lemma_sort_by_num(t: Seq<BuildStepView>)
    requires
        distinct_numbers(t),
    ensures
        sort_by_num(t).len() == t.len(),
        forall|a: int, b: int|
            0 <= a < b < t.len() ==> sort_by_num(t)[a].step_num < sort_by_num(t)[b].step_num,
        forall|a: int|
            0 <= a < t.len() ==> exists|j: int| 0 <= j < t.len() && #[trigger] sort_by_num(t)[a] == t[j],
    decreases t.len(),
{
    if t.len() > 0 {
        let pre = t.drop_last();
        lemma_sort_by_num(pre);
        let l = sort_by_num(pre);
        let x = t.last();
        lemma_first_index_found(l, |e: BuildStepView| e.step_num > x.step_num);
        let q = num_slot(l, x.step_num);
        let r = l.insert(q, x);
        assert(r == sort_by_num(t));
        assert forall|k: int| 0 <= k < q implies #[trigger] l[k].step_num < x.step_num by {
            let j = choose|j: int| 0 <= j < pre.len() && l[k] == pre[j];
            assert(pre[j] == t[j]);
        }
        assert forall|a: int|
            0 <= a < r.len() implies exists|j: int| 0 <= j < t.len() && #[trigger] r[a] == t[j] by {
            if a < q {
                let j = choose|j: int| 0 <= j < pre.len() && l[a] == pre[j];
                assert(r[a] == t[j]);
            } else if a == q {
                assert(r[a] == t[t.len() - 1]);
            } else {
                let j = choose|j: int| 0 <= j < pre.len() && l[a - 1] == pre[j];
                assert(r[a] == t[j]);
            }
        }
        assert forall|a: int, b: int| 0 <= a < b < r.len() implies r[a].step_num < r[b].step_num by {
            if b < q {
            } else if b == q {
            } else if a < q {
                assert(l[q].step_num > x.step_num);
                assert(l[q].step_num <= l[b - 1].step_num || b - 1 == q);
            } else if a == q {
                assert(l[q].step_num > x.step_num);
                assert(l[q].step_num <= l[b - 1].step_num || b - 1 == q);
            } else {
            }
        }
    }
}

/// Numbers that rise strictly, from one up to the count at most, count
/// from one.
proof fn lemma_rising_fill(r: Seq<BuildStepView>, k: int)
    requires
        forall|a: int, b: int| 0 <= a < b < r.len() ==> r[a].step_num < r[b].step_num,
        forall|a: int| 0 <= a < r.len() ==> 1 <= #[trigger] r[a].step_num <= r.len(),
        0 <= k < r.len(),
    ensures
        r[k].step_num == k + 1,
{
    lemma_rising_low(r, k);
    lemma_rising_high(r, k);
}

proof fn lemma_rising_low(r: Seq<BuildStepView>, k: int)
    requires
        forall|a: int, b: int| 0 <= a < b < r.len() ==> r[a].step_num < r[b].step_num,
        forall|a: int| 0 <= a < r.len() ==> 1 <= #[trigger] r[a].step_num <= r.len(),
        0 <= k < r.len(),
    ensures
        r[k].step_num >= k + 1,
    decreases k,
{
    if k > 0 {
        lemma_rising_low(r, k - 1);
    }
}

proof fn lemma_rising_high(r: Seq<BuildStepView>, k: int)
    requires
        forall|a: int, b: int| 0 <= a < b < r.len() ==> r[a].step_num < r[b].step_num,
        forall|a: int| 0 <= a < r.len() ==> 1 <= #[trigger] r[a].step_num <= r.len(),
        0 <= k < r.len(),
    ensures
        r[k].step_num <= k + 1,
    decreases r.len() - k,
{
    if k < r.len() - 1 {
        lemma_rising_high(r, k + 1);
    }
}

/// Ordering steps whose numbers are one to the count, each once, puts the
/// step numbered `k + 1` at position `k`.
proof fn lemma_sort_numbered(t: Seq<BuildStepView>)
    requires
        distinct_numbers(t),
        forall|j: int| 0 <= j < t.len() ==> 1 <= #[trigger] t[j].step_num <= t.len(),
    ensures
        sort_by_num(t).len() == t.len(),
        forall|k: int, j: int|
            0 <= k < t.len() && 0 <= j < t.len() && t[j].step_num == k + 1 ==> sort_by_num(t)[k] == t[j],
{
    lemma_sort_by_num(t);
    let r = sort_by_num(t);
    assert forall|a: int| 0 <= a < r.len() implies 1 <= #[trigger] r[a].step_num <= r.len() by {
        let j = choose|j: int| 0 <= j < t.len() && r[a] == t[j];
        assert(t[j].step_num == r[a].step_num);
    }
    assert forall|k: int, j: int|
        0 <= k < t.len() && 0 <= j < t.len() && t[j].step_num == k + 1 implies r[k] == t[j] by {
        lemma_rising_fill(r, k);
        let j2 = choose|j2: int| 0 <= j2 < t.len() && r[k] == t[j2];
        if j2 != j {
            if j2 < j {
                assert(t[j2].step_num != t[j].step_num);
            } else {
                assert(t[j].step_num != t[j2].step_num);
            }
        }
    }
}

/// Giving step `i` of a list numbered from one the number `num` (from one
/// to the list's length) moves it to position `num - 1`; the other steps
/// keep their order, and the list stays numbered from one.
pub proof fn lemma_move_reorders(s: Seq<BuildStepView>, i: int, num: nat)
    requires
        numbered(s),
        0 <= i < s.len(),
        1 <= num <= s.len(),
    ensures
        sort_by_num(moved_numbers(s, i, num)) == numbered_from_one(s.remove(i).insert(num - 1, s[i])),
        numbered(sort_by_num(moved_numbers(s, i, num))),
{
    let n = s.len();
    let t = moved_numbers(s, i, num);
    assert forall|j: int| 0 <= j < n implies #[trigger] t[j].step_num == moved_num(j, (j + 1) as nat, i, num) by {
        assert(s[j].step_num == j + 1);
    }
    assert forall|j: int| 0 <= j < t.len() implies 1 <= #[trigger] t[j].step_num <= t.len() by {
        assert(t[j].step_num == moved_num(j, (j + 1) as nat, i, num));
    }
    assert forall|a: int, b: int| 0 <= a < b < t.len() implies t[a].step_num != t[b].step_num by {
        assert(t[a].step_num == moved_num(a, (a + 1) as nat, i, num));
        assert(t[b].step_num == moved_num(b, (b + 1) as nat, i, num));
    }
    lemma_sort_numbered(t);
    let r = sort_by_num(t);
    let rem = s.remove(i);
    let u = rem.insert(num - 1, s[i]);
    s.remove_ensures(i);
    rem.insert_ensures(num - 1, s[i]);
    let w = numbered_from_one(u);
    assert forall|k: int| 0 <= k < n implies #[trigger] r[k] == w[k] by {
        let j = if k == num - 1 {
            i
        } else if num - 1 <= i && num - 1 < k <= i {
            k - 1
        } else if num - 1 > i && i <= k < num - 1 {
            k + 1
        } else {
            k
        };
        assert(t[j].step_num == moved_num(j, (j + 1) as nat, i, num));
        assert(t[j].step_num == k + 1);
        assert(u[k] == s[j]);
    }
    assert(r =~= w);
}

/// Adding a step numbered `num` (from one to one past the list's length) to
/// a list numbered from one puts it at position `num - 1`; the other steps
/// keep their order, and the list stays numbered from one.
pub proof fn lemma_add_inserts(s: Seq<BuildStepView>, x: BuildStepView)
    requires
        numbered(s),
        1 <= x.step_num <= s.len() + 1,
    ensures
        sort_by_num(added_numbers(s, x.step_num).push(x)) == numbered_from_one(s.insert(x.step_num - 1, x)),
        numbered(sort_by_num(added_numbers(s, x.step_num).push(x))),
{
    let n = s.len();
    let num = x.step_num;
    let t = added_numbers(s, num).push(x);
    assert forall|j: int| 0 <= j < n implies #[trigger] t[j].step_num == if num - 1 <= j {
        j + 2
    } else {
        j + 1
    } by {
        assert(s[j].step_num == j + 1);
    }
    assert forall|j: int| 0 <= j < t.len() implies 1 <= #[trigger] t[j].step_num <= t.len() by {
        if j < n {
            assert(t[j].step_num == if num - 1 <= j { j + 2 } else { j + 1 });
        }
    }
    assert forall|a: int, b: int| 0 <= a < b < t.len() implies t[a].step_num != t[b].step_num by {
        assert(t[a].step_num == if num - 1 <= a { a + 2 } else { a + 1 });
        if b < n {
            assert(t[b].step_num == if num - 1 <= b { b + 2 } else { b + 1 });
        }
    }
    lemma_sort_numbered(t);
    let r = sort_by_num(t);
    let u = s.insert(num - 1, x);
    s.insert_ensures(num - 1, x);
    let w = numbered_from_one(u);
    assert forall|k: int| 0 <= k < n + 1 implies #[trigger] r[k] == w[k] by {
        let j = if k == num - 1 {
            n as int
        } else if k < num - 1 {
            k
        } else {
            k - 1
        };
        if j < n {
            assert(t[j].step_num == if num - 1 <= j { j + 2 } else { j + 1 });
        }
        assert(t[j].step_num == k + 1);
        assert(u[k] == t[j] || j < n);
    }
    assert(r =~= w);
}

/// The mathematical value of the step about to be added.
pub struct AddStepView {
    pub step_num: nat,
    pub steps_len: nat,
    pub hover: bool,
    pub destination: Option<Seq<char>>,
    pub action: Option<Seq<char>>,
    pub secs: Seq<char>,
    pub mins: Seq<char>,
    pub hours: Seq<char>,
    pub wait: bool,
    pub destination_style: Theme,
}

/// The step about to be added: the number it will get, the number of steps
/// the list had when last counted, its values, and the colour of its
/// destination choice (red after an add without a destination).
#[derive(Debug)]
pub struct AddStep {
    pub step_num: usize,
    pub steps_len: usize,
    pub hover: bool,
    pub selected_destination: Option<String>,
    pub selected_action: Option<String>,
    pub secs_value: String,
    pub mins_value: String,
    pub hours_value: String,
    pub wait: bool,
    pub destination_style: Theme,
}

impl View for AddStep {
    type V = AddStepView;

    open spec fn view(&self) -> AddStepView {
        AddStepView {
            step_num: self.step_num as nat,
            steps_len: self.steps_len as nat,
            hover: self.hover,
            destination: opt_view(self.selected_destination),
            action: opt_view(self.selected_action),
            secs: self.secs_value@,
            mins: self.mins_value@,
            hours: self.hours_value@,
            wait: self.wait,
            destination_style: self.destination_style,
        }
    }
}

/// A change to the step about to be added; `Add` carries its values:
/// destination, hover, action, number, hours, minutes, seconds, wait.
#[derive(Clone, Debug)]
pub enum AddStepMessage {
    Add(Option<String>, bool, Option<String>, Option<usize>, String, String, String, bool),
    NewDestination(String),
    NewAction(String),
    SecsChanged(String),
    MinsChanged(String),
    HoursChanged(String),
    NewNum(usize),
    ToggleHover(bool),
    ToggleWait(bool),
    HoursIncrement,
    HoursDecrement,
    MinsIncrement,
    MinsDecrement,
    SecsIncrement,
    SecsDecrement,
}

/// The first of the names, if any.
pub open spec fn first_name(names: Seq<Seq<char>>) -> Option<Seq<char>> {
    if names.len() > 0 {
        Some(names[0])
    } else {
        None
    }
}

/// Whether a message can be applied to the step about to be added without
/// a number running past the ends of `usize`.
pub open spec fn add_message_fits(v: AddStepView, m: AddStepMessage) -> bool {
    match m {
        AddStepMessage::HoursIncrement => increment_defined(v.hours),
        AddStepMessage::MinsIncrement => increment_defined(v.mins),
        AddStepMessage::SecsIncrement => increment_defined(v.secs),
        AddStepMessage::HoursDecrement => decrement_defined(v.hours),
        AddStepMessage::MinsDecrement => decrement_defined(v.mins),
        AddStepMessage::SecsDecrement => decrement_defined(v.secs),
        _ => true,
    }
}

/// The step about to be added after a message: a chosen destination turns
/// its choice blue again; typed and counted time fields as for a step;
/// `Add` empties the time fields.
pub open spec fn add_step_after(v: AddStepView, m: AddStepMessage) -> AddStepView {
    match m {
        AddStepMessage::NewDestination(d) => AddStepView {
            destination_style: Theme::Blue,
            destination: Some(d@),
            ..v
        },
        AddStepMessage::NewAction(a) => AddStepView { action: Some(a@), ..v },
        AddStepMessage::ToggleHover(b) => AddStepView { hover: b, ..v },
        AddStepMessage::ToggleWait(b) => AddStepView { wait: b, ..v },
        AddStepMessage::HoursChanged(h) => AddStepView { hours: typed_field(h@, v.hours, MAX_HOURS as nat), ..v },
        AddStepMessage::MinsChanged(t) => AddStepView { mins: typed_field(t@, v.mins, MAX_MINS as nat), ..v },
        AddStepMessage::SecsChanged(t) => AddStepView { secs: typed_field(t@, v.secs, MAX_MINS as nat), ..v },
        AddStepMessage::HoursIncrement => AddStepView { hours: incremented_field(v.hours, MAX_HOURS as nat), ..v },
        AddStepMessage::MinsIncrement => AddStepView { mins: incremented_field(v.mins, MAX_MINS as nat), ..v },
        AddStepMessage::SecsIncrement => AddStepView { secs: incremented_field(v.secs, MAX_MINS as nat), ..v },
        AddStepMessage::HoursDecrement => AddStepView { hours: decremented_field(v.hours), ..v },
        AddStepMessage::MinsDecrement => AddStepView { mins: decremented_field(v.mins), ..v },
        AddStepMessage::SecsDecrement => AddStepView { secs: decremented_field(v.secs), ..v },
        AddStepMessage::Add(..) => AddStepView {
            hours: Seq::empty(),
            mins: Seq::empty(),
            secs: Seq::empty(),
            ..v
        },
        AddStepMessage::NewNum(n) => AddStepView { step_num: n as nat, ..v },
    }
}

impl AddStep {
    /// The step about to be added as number `step_num` of a list of
    /// `steps_len`: no destination, the first action, empty time fields.
    pub fn new(step_num: usize, steps_len: usize, action_names: &Vec<String>) -> (r: AddStep)
        ensures
            r@ == (AddStepView {
                step_num: step_num as nat,
                steps_len: steps_len as nat,
                hover: false,
                destination: None,
                action: first_name(views(action_names@)),
                secs: Seq::empty(),
                mins: Seq::empty(),
                hours: Seq::empty(),
                wait: false,
                destination_style: Theme::Blue,
            }),
    {
        let selected_action = if action_names.len() > 0 {
            Some(copy_str(action_names[0].as_str()))
        } else {
            None
        };
        let r = AddStep {
            step_num,
            steps_len,
            hover: false,
            selected_destination: None,
            selected_action,
            secs_value: String::new(),
            mins_value: String::new(),
            hours_value: String::new(),
            wait: false,
            destination_style: Theme::Blue,
        };
        assert(r.secs_value@ =~= Seq::<char>::empty());
        r
    }

    /// Applies a message to the step about to be added.
    pub fn update(&mut self, message: AddStepMessage)
        requires
            add_message_fits(old(self)@, message),
        ensures
            final(self)@ == add_step_after(old(self)@, message),
    {
        match message {
            AddStepMessage::NewDestination(destination) => {
                self.destination_style = Theme::Blue;
                self.selected_destination = Some(destination);
            },
            AddStepMessage::NewAction(action) => self.selected_action = Some(action),
            AddStepMessage::ToggleHover(b) => self.hover = b,
            AddStepMessage::ToggleWait(b) => self.wait = b,
            AddStepMessage::HoursChanged(hours) => {
                self.hours_value = typed_time(hours.as_str(), self.hours_value.as_str(), MAX_HOURS);
            },
            AddStepMessage::MinsChanged(mins) => {
                self.mins_value = typed_time(mins.as_str(), self.mins_value.as_str(), MAX_MINS);
            },
            AddStepMessage::SecsChanged(secs) => {
                self.secs_value = typed_time(secs.as_str(), self.secs_value.as_str(), MAX_MINS);
            },
            AddStepMessage::HoursIncrement => {
                self.hours_value = increment_time(self.hours_value.as_str(), MAX_HOURS);
            },
            AddStepMessage::MinsIncrement => {
                self.mins_value = increment_time(self.mins_value.as_str(), MAX_MINS);
            },
            AddStepMessage::SecsIncrement => {
                self.secs_value = increment_time(self.secs_value.as_str(), MAX_MINS);
            },
            AddStepMessage::HoursDecrement => {
                self.hours_value = decrement_time(self.hours_value.as_str());
            },
            AddStepMessage::MinsDecrement => {
                self.mins_value = decrement_time(self.mins_value.as_str());
            },
            AddStepMessage::SecsDecrement => {
                self.secs_value = decrement_time(self.secs_value.as_str());
            },
            AddStepMessage::Add(..) => {
                self.hours_value = String::new();
                self.mins_value = String::new();
                self.secs_value = String::new();
                assert(self.secs_value@ =~= Seq::<char>::empty());
            },
            AddStepMessage::NewNum(num) => {
                self.step_num = num;
            },
        }
    }
}

/// Whether name `a` comes before name `b` in the order of `String`:
/// character by character, a proper prefix first.
pub open spec fn name_lt(a: Seq<char>, b: Seq<char>) -> bool
    decreases a.len(),
{
    if b.len() == 0 {
        false
    } else if a.len() == 0 {
        true
    } else if a[0] != b[0] {
        a[0] < b[0]
    } else {
        name_lt(a.drop_first(), b.drop_first())
    }
}

/// Whether name `a` comes before name `b`.
pub fn names_lt(a: &str, b: &str) -> (r: bool)
    ensures
        r == name_lt(a@, b@),
{
    let x = chars_of(a);
    let y = chars_of(b);
    let mut i: usize = 0;
    assert(a@.skip(0) =~= a@);
    assert(b@.skip(0) =~= b@);
    while i < x.len() && i < y.len() && x[i] == y[i]
        invariant
            i <= x@.len(),
            i <= y@.len(),
            x@ == a@,
            y@ == b@,
            name_lt(a@, b@) == name_lt(a@.skip(i as int), b@.skip(i as int)),
        decreases x@.len() - i,
    {
        proof {
            let sa = a@.skip(i as int);
            let sb = b@.skip(i as int);
            assert(sa.drop_first() =~= a@.skip(i + 1));
            assert(sb.drop_first() =~= b@.skip(i + 1));
        }
        i = i + 1;
    }
    let ghost sa = a@.skip(i as int);
    let ghost sb = b@.skip(i as int);
    if i >= y.len() {
        assert(sb.len() == 0);
        false
    } else if i >= x.len() {
        assert(sa.len() == 0);
        true
    } else {
        assert(sa[0] == x@[i as int] && sb[0] == y@[i as int]);
        x[i] < y[i]
    }
}

/// Where name `x` goes in an ordered list: before the first name after it.
pub open spec fn name_slot(l: Seq<Seq<char>>, x: Seq<char>) -> int {
    match first_index(l, |e: Seq<char>| name_lt(x, e)) {
        Some(p) => p,
        None => l.len() as int,
    }
}

/// The names in the order of `String`.
pub open spec fn sorted_names(s: Seq<Seq<char>>) -> Seq<Seq<char>>
    decreases s.len(),
{
    if s.len() == 0 {
        s
    } else {
        let l = sorted_names(s.drop_last());
        l.insert(name_slot(l, s.last()), s.last())
    }
}

/// The names in the order of `String`.
pub fn sort_names(v: &Vec<String>) -> (r: Vec<String>)
    ensures
        views(r@) == sorted_names(views(v@)),
{
    let ghost sv = views(v@);
    let mut r: Vec<String> = Vec::new();
    let mut i: usize = 0;
    while i < v.len()
        invariant
            i <= v@.len(),
            sv == views(v@),
            views(r@) == sorted_names(sv.take(i as int)),
        decreases v@.len() - i,
    {
        let ghost before = views(r@);
        let mut p: usize = 0;
        while p < r.len() && !names_lt(v[i].as_str(), r[p].as_str())
            invariant
                p <= r@.len(),
                i < v@.len(),
                before == views(r@),
                forall|a: int| 0 <= a < p ==> !name_lt(v@[i as int]@, #[trigger] before[a]),
            decreases r@.len() - p,
        {
            p = p + 1;
        }
        proof {
            lemma_first_index(before, |e: Seq<char>| name_lt(v@[i as int]@, e), p as int);
            assert(sv.take(i + 1).drop_last() =~= sv.take(i as int));
            assert(sv.take(i + 1).last() == v@[i as int]@);
        }
        let e = copy_str(v[i].as_str());
        r.insert(p, e);
        proof {
            assert(views(r@) =~= before.insert(p as int, v@[i as int]@));
        }
        i = i + 1;
    }
    proof {
        assert(sv.take(v@.len() as int) =~= sv);
    }
    r
}

/// The recipe name of a file name: the characters before the first dot,
/// where there is at least one.
pub open spec fn recipe_name_of(f: Seq<char>) -> Option<Seq<char>> {
    let p = match first_index(f, |c: char| c == '.') {
        Some(p) => p,
        None => f.len() as int,
    };
    if p > 0 {
        Some(f.take(p))
    } else {
        None
    }
}

/// The recipe name of a file name.
pub fn recipe_name(f: &str) -> (r: Option<String>)
    ensures
        opt_view(r) == recipe_name_of(f@),
{
    let c = chars_of(f);
    let mut p: usize = 0;
    while p < c.len() && c[p] != '.'
        invariant
            p <= c@.len(),
            c@ == f@,
            forall|k: int| 0 <= k < p ==> #[trigger] c@[k] != '.',
        decreases c@.len() - p,
    {
        p = p + 1;
    }
    proof {
        lemma_first_index(f@, |x: char| x == '.', p as int);
    }
    if p == 0 {
        return None;
    }
    let mut out: Vec<char> = Vec::new();
    let mut k: usize = 0;
    while k < p
        invariant
            k <= p <= c@.len(),
            out@ == c@.take(k as int),
        decreases p - k,
    {
        out.push(c[k]);
        assert(out@ =~= c@.take(k + 1));
        k = k + 1;
    }
    Some(string_of(&out))
}

/// The recipe names among file names, in the order the files come.
pub open spec fn listed_names(files: Seq<Seq<char>>) -> Seq<Seq<char>>
    decreases files.len(),
{
    if files.len() == 0 {
        Seq::empty()
    } else {
        let rest = listed_names(files.drop_last());
        match recipe_name_of(files.last()) {
            Some(n) => rest.push(n),
            None => rest,
        }
    }
}

/// The recipe names of the files of the recipe folder, in the order of
/// `String`.
pub fn recipe_options(files: &Vec<String>) -> (r: Vec<String>)
    ensures
        views(r@) == sorted_names(listed_names(views(files@))),
{
    let ghost fv = views(files@);
    let mut names: Vec<String> = Vec::new();
    let mut i: usize = 0;
    while i < files.len()
        invariant
            i <= files@.len(),
            fv == views(files@),
            views(names@) == listed_names(fv.take(i as int)),
        decreases files@.len() - i,
    {
        let ghost before = views(names@);
        proof {
            assert(fv.take(i + 1).drop_last() =~= fv.take(i as int));
            assert(fv.take(i + 1).last() == files@[i as int]@);
        }
        match recipe_name(files[i].as_str()) {
            Some(n) => {
                names.push(n);
                assert(views(names@) =~= before.push(names@[names@.len() - 1]@));
            },
            None => {},
        }
        i = i + 1;
    }
    proof {
        assert(fv.take(files@.len() as int) =~= fv);
    }
    sort_names(&names)
}

/// Which page of the builder shows, or which question it asks.
#[derive(Clone, Copy, Debug, PartialEq, Eq, Structural)]
pub enum BuildState {
    Steps,
    RequiredInput,
    DeleteConfirm,
    EnterName,
    OverwriteConfirm,
}

/// A change to one required input.
#[derive(Clone, Debug)]
pub enum RequiredInputMessage {
    InputChanged(String),
    Delete,
}

/// A message to the builder.
#[derive(Clone, Debug)]
pub enum BuildMessage {
    StepMessage(usize, StepMessage),
    BeforeRequiredInputMessage(usize, RequiredInputMessage),
    AfterRequiredInputMessage(usize, RequiredInputMessage),
    AddStepMessage(AddStepMessage),
    SearchChanged(String),
    UpdateSearch,
    SaveMessage(SaveBarMessage),
    StepsTab,
    RequiredInputTab,
    AddInputBefore,
    AddInputAfter,
    Saved,
    Cancel,
    ConfirmOverWrite,
    DeleteConfirmed,
    ConfirmDelete,
    SaveWithName,
    NameEntryChanged(String),
}

/// The required inputs of a recipe as a file holds them (either list may be
/// left out).
#[derive(Debug)]
pub struct SaveInput {
    pub before: Option<Vec<String>>,
    pub after: Option<Vec<String>>,
}

/// A recipe as a file holds it (the step list may be left out).
#[derive(Debug)]
pub struct SaveRecipe {
    pub required_inputs: SaveInput,
    pub steps: Option<Vec<Step>>,
}

/// The texts of an optional list (none where it is left out).
pub open spec fn opt_names(o: Option<Vec<String>>) -> Seq<Seq<char>> {
    match o {
        Some(v) => views(v@),
        None => Seq::empty(),
    }
}

/// The values of a list of recipe steps.
pub open spec fn records(v: Seq<Step>) -> Seq<StepRecord> {
    v.map_values(|st: Step| st@)
}

/// The optional values of an optional list of recipe steps.
pub open spec fn opt_records(o: Option<Vec<Step>>) -> Option<Seq<StepRecord>> {
    match o {
        Some(v) => Some(records(v@)),
        None => None,
    }
}

/// The steps a read recipe gives the builder: numbered from one in file
/// order (the numbers in the file are not read), each checked against the
/// nodes and actions.
pub open spec fn loaded_steps(
    st: Seq<StepRecord>,
    nodes: Seq<Seq<char>>,
    actions: Seq<Seq<char>>,
) -> Seq<BuildStepView> {
    Seq::new(
        st.len(),
        |i: int|
            new_step_view(
                (i + 1) as nat,
                st.len(),
                nodes,
                actions,
                Some(st[i].destination),
                st[i].hover,
                Some(st[i].action),
                st[i].hours,
                st[i].mins,
                st[i].secs,
                st[i].wait,
            ),
    )
}

/// The inputs of a list that hold text, in order.
pub open spec fn filled(l: Seq<Seq<char>>) -> Seq<Seq<char>>
    decreases l.len(),
{
    if l.len() == 0 {
        l
    } else {
        let r = filled(l.drop_last());
        if l.last().len() > 0 {
            r.push(l.last())
        } else {
            r
        }
    }
}

/// A list as a file holds it: left out where it is empty.
pub open spec fn or_left_out(l: Seq<Seq<char>>) -> Option<Seq<Seq<char>>> {
    if l.len() > 0 {
        Some(l)
    } else {
        None
    }
}

/// The texts of an optional list, kept optional.
pub open spec fn opt_list(o: Option<Vec<String>>) -> Option<Seq<Seq<char>>> {
    match o {
        Some(v) => Some(views(v@)),
        None => None,
    }
}

/// An edited step as a file holds it: its number written out, its
/// destination and action as chosen.
pub open spec fn record_of(v: BuildStepView) -> StepRecord {
    StepRecord {
        step_num: decimal_digits(v.step_num),
        destination: v.destination->0,
        action: v.action->0,
        secs: v.secs,
        mins: v.mins,
        hours: v.hours,
        hover: v.hover,
        wait: v.wait,
    }
}

/// The steps as a file holds them: left out where there are none.
pub open spec fn saved_steps(s: Seq<BuildStepView>) -> Option<Seq<StepRecord>> {
    if s.len() > 0 {
        Some(Seq::new(s.len(), |k: int| record_of(s[k])))
    } else {
        None
    }
}

/// Whether every step has a destination and an action chosen.
pub open spec fn all_chosen(s: Seq<BuildStepView>) -> bool {
    forall|k: int| 0 <= k < s.len() ==> (#[trigger] s[k]).destination is Some && s[k].action is Some
}

/// What saving asks of its surroundings: the recipe name chosen before (its
/// file is read for the log; empty where none was), what the log says where
/// that file cannot be read, the name to save under, the name whose file
/// decides whether the recipe is changed or created, and the recipe.
#[derive(Debug)]
pub struct SavePlan {
    pub old_name: String,
    pub missing_old: String,
    pub name: String,
    pub probe_name: String,
    pub recipe: SaveRecipe,
}

/// Whether saving the builder `v` on the given platform went as it should:
/// with no name entered every list is emptied and nothing is written;
/// otherwise the empty inputs are dropped, the edited recipe becomes the
/// saved one under the cleaned-up name, which becomes the chosen recipe,
/// and the plan holds what is to be written.
pub open spec fn saved_as(v: BuildView, windows: bool, after: BuildView, r: Option<SavePlan>) -> bool {
    let base = BuildView { save_message: "Unsaved Changes!"@, ..v };
    if v.name_entry.len() == 0 {
        &&& r is None
        &&& after == cleared(BuildView { name_entry: Seq::empty(), ..base })
    } else {
        let name = os_clean(windows, v.name_entry);
        let before = filled(v.modified_before);
        let after_inputs = filled(v.modified_after);
        &&& r matches Some(p) && {
            &&& p.old_name@ == match v.search_value {
                Some(n) => n,
                None => Seq::empty(),
            }
            &&& p.missing_old@ == "No old recipe '"@ + v.name_entry + "' is new"@
            &&& p.name@ == name
            &&& p.probe_name@ == remove_all(name, " "@)
            &&& opt_list(p.recipe.required_inputs.before) == or_left_out(before)
            &&& opt_list(p.recipe.required_inputs.after) == or_left_out(after_inputs)
            &&& opt_records(p.recipe.steps) == saved_steps(v.modified_steps)
        }
        &&& after == BuildView {
            name_entry: name,
            modified_before: before,
            modified_after: after_inputs,
            steps: v.modified_steps,
            before,
            after: after_inputs,
            unsaved: false,
            search_value: Some(name),
            state: BuildState::Steps,
            ..base
        }
    }
}

/// The log of a save: its file name and lines.
#[derive(Debug)]
pub struct SaveLog {
    pub file: String,
    pub lines: Vec<String>,
}

/// The log file name of a save made at `date`.
pub open spec fn save_log_file(date: Seq<char>, name: Seq<char>, existed: bool) -> Seq<char> {
    date + (if existed {
        "; Build - Changed '"@
    } else {
        "; Build - Created '"@
    }) + name + "'"@
}

/// The log lines of a save: the recipe before and after where it existed,
/// the new recipe where it was created.
pub open spec fn save_log_lines(name: Seq<char>, existed: bool, old: Seq<char>, new: Seq<char>) -> Seq<Seq<char>> {
    if existed {
        seq![Seq::empty(), "Recipe changed from:"@, old, "\n\n\nRecipe changed to:"@, new]
    } else {
        seq![Seq::empty(), "Created Recipe '"@ + name + "' as:"@, new]
    }
}

/// The log of saving recipe `name` at `date`: `existed` tells whether its
/// file was there, `old` and `new` are the recipe's text before and after.
pub fn save_log(date: &str, name: &str, existed: bool, old: &str, new: &str) -> (r: SaveLog)
    ensures
        r.file@ == save_log_file(date@, name@, existed),
        views(r.lines@) == save_log_lines(name@, existed, old@, new@),
{
    let mut file = copy_str(date);
    if existed {
        append_str(&mut file, "; Build - Changed '");
    } else {
        append_str(&mut file, "; Build - Created '");
    }
    append_str(&mut file, name);
    append_str(&mut file, "'");
    let mut lines: Vec<String> = Vec::new();
    lines.push(String::new());
    if existed {
        lines.push(copy_str("Recipe changed from:"));
        lines.push(copy_str(old));
        lines.push(copy_str("\n\n\nRecipe changed to:"));
        lines.push(copy_str(new));
    } else {
        let mut l = concat("Created Recipe '", name);
        append_str(&mut l, "' as:");
        lines.push(l);
        lines.push(copy_str(new));
    }
    assert(views(lines@) =~= save_log_lines(name@, existed, old@, new@));
    SaveLog { file, lines }
}

/// The inputs that hold text, in order.
fn keep_filled(l: &Vec<String>) -> (r: Vec<String>)
    ensures
        views(r@) == filled(views(l@)),
{
    let ghost lv = views(l@);
    let mut r: Vec<String> = Vec::new();
    let mut i: usize = 0;
    while i < l.len()
        invariant
            i <= l@.len(),
            lv == views(l@),
            views(r@) == filled(lv.take(i as int)),
        decreases l@.len() - i,
    {
        let ghost before = views(r@);
        proof {
            assert(lv.take(i + 1).drop_last() =~= lv.take(i as int));
            assert(lv.take(i + 1).last() == l@[i as int]@);
        }
        if !l[i].as_str().is_empty() {
            r.push(copy_str(l[i].as_str()));
            assert(views(r@) =~= before.push(l@[i as int]@));
        }
        i = i + 1;
    }
    proof {
        assert(lv.take(l@.len() as int) =~= lv);
    }
    r
}

/// The steps as a file holds them.
fn records_of(s: &Vec<BuildStep>) -> (r: Vec<Step>)
    requires
        all_chosen(step_views(s@)),
    ensures
        records(r@) == Seq::new(s@.len(), |k: int| record_of(step_views(s@)[k])),
{
    let ghost target = Seq::new(s@.len(), |k: int| record_of(step_views(s@)[k]));
    let mut r: Vec<Step> = Vec::new();
    let mut k: usize = 0;
    while k < s.len()
        invariant
            k <= s@.len(),
            all_chosen(step_views(s@)),
            target == Seq::new(s@.len(), |k: int| record_of(step_views(s@)[k])),
            records(r@) == target.take(k as int),
        decreases s@.len() - k,
    {
        let b = &s[k];
        assert(step_views(s@)[k as int] == b@);
        let destination = match &b.selected_destination {
            Some(d) => copy_str(d.as_str()),
            None => String::new(),
        };
        let action = match &b.selected_action {
            Some(a) => copy_str(a.as_str()),
            None => String::new(),
        };
        let st = Step {
            step_num: format_usize(b.step_num),
            selected_destination: destination,
            selected_action: action,
            secs_value: copy_str(b.secs_value.as_str()),
            mins_value: copy_str(b.mins_value.as_str()),
            hours_value: copy_str(b.hours_value.as_str()),
            hover: b.hover,
            wait: b.wait,
        };
        let ghost prev = r@;
        r.push(st);
        proof {
            assert(records(prev).len() == prev.len());
            assert(prev.len() == k);
            assert(target[k as int] == st@);
            assert forall|j: int| 0 <= j < k + 1 implies #[trigger] records(r@)[j] == target.take(k + 1)[j] by {
                if j < k {
                    assert(r@[j] == prev[j]);
                    assert(records(prev)[j] == target.take(k as int)[j]);
                }
            }
            assert(records(r@) =~= target.take(k + 1));
        }
        k = k + 1;
    }
    proof {
        assert(target.take(s@.len() as int) =~= target);
    }
    r
}

/// The builder after the recipe folder was listed.
pub open spec fn listed_view(v: BuildView, files: Seq<Seq<char>>) -> BuildView {
    BuildView { search_options: sorted_names(listed_names(files)), ..v }
}

/// The builder after a recipe was read.
pub open spec fn loaded_view(
    v: BuildView,
    r: SaveRecipe,
    nodes: Seq<Seq<char>>,
    actions: Seq<Seq<char>>,
) -> BuildView {
    let st = match opt_records(r.steps) {
        Some(s) => s,
        None => Seq::empty(),
    };
    let steps = loaded_steps(st, nodes, actions);
    let before = opt_names(r.required_inputs.before);
    let after = opt_names(r.required_inputs.after);
    BuildView {
        before,
        after,
        steps,
        modified_steps: steps,
        modified_before: before,
        modified_after: after,
        add_step: AddStepView { step_num: st.len() + 1, steps_len: st.len(), ..v.add_step },
        ..v
    }
}

/// The mathematical value of the builder.
pub struct BuildView {
    pub unsaved: bool,
    pub save_message: Seq<char>,
    pub steps: Seq<BuildStepView>,
    pub before: Seq<Seq<char>>,
    pub after: Seq<Seq<char>>,
    pub modified_steps: Seq<BuildStepView>,
    pub modified_before: Seq<Seq<char>>,
    pub modified_after: Seq<Seq<char>>,
    pub add_step: AddStepView,
    pub search_options: Seq<Seq<char>>,
    pub search_value: Option<Seq<char>>,
    pub name_entry: Seq<char>,
    pub state: BuildState,
}

/// The recipe builder: the recipe as saved (steps and required inputs) and
/// as edited, the step about to be added, the recipes to choose from and the
/// one chosen, the name being entered for saving, and the page shown.
#[derive(Debug)]
pub struct Build {
    pub unsaved: bool,
    pub save_message: String,
    pub steps: Vec<BuildStep>,
    pub before_inputs: Vec<String>,
    pub after_inputs: Vec<String>,
    pub modified_steps: Vec<BuildStep>,
    pub modified_before_inputs: Vec<String>,
    pub modified_after_inputs: Vec<String>,
    pub add_step: AddStep,
    pub search_options: Vec<String>,
    pub search_value: Option<String>,
    pub name_entry_value: String,
    pub state: BuildState,
}

impl View for Build {
    type V = BuildView;

    open spec fn view(&self) -> BuildView {
        BuildView {
            unsaved: self.unsaved,
            save_message: self.save_message@,
            steps: step_views(self.steps@),
            before: views(self.before_inputs@),
            after: views(self.after_inputs@),
            modified_steps: step_views(self.modified_steps@),
            modified_before: views(self.modified_before_inputs@),
            modified_after: views(self.modified_after_inputs@),
            add_step: self.add_step@,
            search_options: views(self.search_options@),
            search_value: opt_view(self.search_value),
            name_entry: self.name_entry_value@,
            state: self.state,
        }
    }
}

/// What the builder asks of its surroundings after a message.
#[derive(Debug)]
pub enum BuildAction {
    /// Nothing.
    Nothing,
    /// Read the chosen recipe and hand it to `recipe_loaded`.
    Load,
    /// List the recipe folder and hand the file names to `refresh`; read the
    /// chosen recipe where it says so.
    Refresh,
    /// Remove the recipe of this name, list the recipe folder for
    /// `recipes_listed`, and read the chosen recipe for `recipe_loaded`.
    Delete(String),
    /// Tell `name_checked` whether a recipe of this name exists.
    CheckName(String),
    /// Save the recipe under edit (`save`).
    Save,
}

/// The mathematical value of a builder action.
pub enum BuildActionView {
    Nothing,
    Load,
    Refresh,
    Delete(Seq<char>),
    CheckName(Seq<char>),
    Save,
}

/// The value of a builder action.
pub open spec fn action_view(a: BuildAction) -> BuildActionView {
    match a {
        BuildAction::Nothing => BuildActionView::Nothing,
        BuildAction::Load => BuildActionView::Load,
        BuildAction::Refresh => BuildActionView::Refresh,
        BuildAction::Delete(n) => BuildActionView::Delete(n@),
        BuildAction::CheckName(n) => BuildActionView::CheckName(n@),
        BuildAction::Save => BuildActionView::Save,
    }
}

/// Whether a name may be entered for a recipe: it holds none of the
/// characters Windows forbids in file names.
pub open spec fn name_allowed(val: Seq<char>) -> bool {
    forall|k: int| 0 <= k < val.len() ==> !windows_forbidden(#[trigger] val[k])
}

/// Whether some step is open for editing.
pub open spec fn any_editing(s: Seq<BuildStepView>) -> bool {
    exists|k: int| 0 <= k < s.len() && #[trigger] s[k].editing
}

/// The steps with step `i` open for editing and every other one closed.
pub open spec fn opened_only(s: Seq<BuildStepView>, i: int) -> Seq<BuildStepView> {
    Seq::new(s.len(), |k: int| BuildStepView { editing: k == i, ..s[k] })
}

/// The builder with every list of the recipe emptied.
pub open spec fn cleared(v: BuildView) -> BuildView {
    BuildView {
        steps: Seq::empty(),
        before: Seq::empty(),
        after: Seq::empty(),
        modified_steps: Seq::empty(),
        modified_before: Seq::empty(),
        modified_after: Seq::empty(),
        ..v
    }
}

/// The step list after an `Add` with a destination: the new step numbered
/// `num`, checked against the nodes and actions.
pub open spec fn list_after_add(
    v: BuildView,
    nodes: Seq<Seq<char>>,
    actions: Seq<Seq<char>>,
    d: Seq<char>,
    hover: bool,
    action: Option<String>,
    num: nat,
    hours: Seq<char>,
    mins: Seq<char>,
    secs: Seq<char>,
    wait: bool,
) -> Seq<BuildStepView> {
    let x = new_step_view(num, v.steps.len(), nodes, actions, Some(d), hover, opt_view(action), hours, mins, secs, wait);
    with_len(sort_by_num(added_numbers(v.modified_steps, num).push(x)))
}

/// The builder after a change to a required input of a list.
pub open spec fn inputs_after(l: Seq<Seq<char>>, i: int, m: RequiredInputMessage) -> Seq<Seq<char>> {
    match m {
        RequiredInputMessage::Delete => l.remove(i),
        RequiredInputMessage::InputChanged(val) => l.update(i, val@),
    }
}

/// The builder after a message (what it asks of its surroundings is
/// `build_action`).
pub open spec fn build_after(
    v: BuildView,
    m: BuildMessage,
    nodes: Seq<Seq<char>>,
    actions: Seq<Seq<char>>,
) -> BuildView {
    match m {
        BuildMessage::Cancel => BuildView { name_entry: Seq::empty(), state: BuildState::Steps, ..v },
        BuildMessage::StepMessage(i, sm) => match sm {
            StepMessage::Delete => {
                let rest = renumbered(v.modified_steps.remove(i as int));
                BuildView {
                    modified_steps: rest,
                    add_step: AddStepView { step_num: rest.len() + 1, steps_len: rest.len(), ..v.add_step },
                    ..v
                }
            },
            StepMessage::NewNum(num) => BuildView {
                modified_steps: sort_by_num(moved_numbers(v.modified_steps, i as int, num as nat)),
                ..v
            },
            StepMessage::Edit => BuildView {
                unsaved: true,
                modified_steps: opened_only(v.modified_steps, i as int),
                ..v
            },
            _ => if i < v.modified_steps.len() {
                BuildView {
                    modified_steps: v.modified_steps.update(
                        i as int,
                        step_after(v.modified_steps[i as int], sm, nodes, actions),
                    ),
                    ..v
                }
            } else {
                v
            },
        },
        BuildMessage::AddStepMessage(am) => match am {
            AddStepMessage::Add(dest, hover, action, num, hours, mins, secs, wait) => match dest {
                Some(d) => {
                    let n = match num {
                        Some(n) => n as nat,
                        None => 0,
                    };
                    let ms = list_after_add(v, nodes, actions, d@, hover, action, n, hours@, mins@, secs@, wait);
                    BuildView {
                        unsaved: true,
                        modified_steps: ms,
                        add_step: AddStepView {
                            step_num: ms.len() + 1,
                            steps_len: ms.len(),
                            hours: Seq::empty(),
                            mins: Seq::empty(),
                            secs: Seq::empty(),
                            hover: false,
                            wait: false,
                            ..v.add_step
                        },
                        ..v
                    }
                },
                None => BuildView {
                    add_step: AddStepView { destination_style: Theme::Red, ..v.add_step },
                    ..v
                },
            },
            _ => BuildView { add_step: add_step_after(v.add_step, am), ..v },
        },
        BuildMessage::RequiredInputTab => BuildView { state: BuildState::RequiredInput, ..v },
        BuildMessage::StepsTab => BuildView { state: BuildState::Steps, ..v },
        BuildMessage::BeforeRequiredInputMessage(i, rm) => BuildView {
            unsaved: if rm is Delete {
                true
            } else {
                v.unsaved
            },
            modified_before: inputs_after(v.modified_before, i as int, rm),
            ..v
        },
        BuildMessage::AfterRequiredInputMessage(i, rm) => BuildView {
            unsaved: if rm is Delete {
                true
            } else {
                v.unsaved
            },
            modified_after: inputs_after(v.modified_after, i as int, rm),
            ..v
        },
        BuildMessage::AddInputBefore => BuildView {
            unsaved: true,
            modified_before: v.modified_before.push(Seq::empty()),
            ..v
        },
        BuildMessage::AddInputAfter => BuildView {
            unsaved: true,
            modified_after: v.modified_after.push(Seq::empty()),
            ..v
        },
        BuildMessage::SearchChanged(recipe) => if v.unsaved {
            BuildView { save_message: "Save or Cancel before changing recipe!"@, ..v }
        } else {
            BuildView { search_value: Some(recipe@), ..v }
        },
        BuildMessage::ConfirmDelete => BuildView { state: BuildState::DeleteConfirm, ..v },
        BuildMessage::DeleteConfirmed => BuildView { search_value: None, state: BuildState::Steps, ..v },
        BuildMessage::UpdateSearch => v,
        BuildMessage::SaveMessage(SaveBarMessage::Cancel) => BuildView {
            save_message: "Unsaved Changes!"@,
            modified_steps: v.steps,
            modified_before: v.before,
            modified_after: v.after,
            unsaved: false,
            ..v
        },
        BuildMessage::NameEntryChanged(val) => if name_allowed(val@) {
            BuildView { name_entry: val@, ..v }
        } else {
            v
        },
        BuildMessage::SaveMessage(SaveBarMessage::Save) => if any_editing(v.modified_steps)
            && v.modified_steps.len() > 0 {
            BuildView { save_message: "'Ok' all steps before saving"@, ..v }
        } else {
            BuildView {
                save_message: "Unsaved Changes!"@,
                name_entry: match v.search_value {
                    Some(n) => n,
                    None => Seq::empty(),
                },
                state: BuildState::EnterName,
                ..v
            }
        },
        BuildMessage::ConfirmOverWrite => v,
        BuildMessage::SaveWithName => v,
        BuildMessage::Saved => v,
    }
}

/// What the builder asks of its surroundings after a message: reading the
/// chosen recipe, listing the folder, removing a recipe, checking a name, or
/// saving.
pub open spec fn build_action(v: BuildView, m: BuildMessage) -> BuildActionView {
    match m {
        BuildMessage::SearchChanged(_) => if v.unsaved {
            BuildActionView::Nothing
        } else {
            BuildActionView::Load
        },
        BuildMessage::DeleteConfirmed => match v.search_value {
            Some(n) => BuildActionView::Delete(n),
            None => BuildActionView::Nothing,
        },
        BuildMessage::UpdateSearch => BuildActionView::Refresh,
        BuildMessage::ConfirmOverWrite => BuildActionView::Save,
        BuildMessage::SaveWithName => BuildActionView::CheckName(v.name_entry),
        _ => BuildActionView::Nothing,
    }
}

/// Whether the builder can take a message: the step or input it names is
/// in its list, a chosen recipe is there to delete, an added step has a
/// number, and no number runs past the ends of `usize`.
pub open spec fn build_message_fits(v: BuildView, m: BuildMessage) -> bool {
    match m {
        BuildMessage::StepMessage(i, sm) => match sm {
            StepMessage::Delete => i < v.modified_steps.len(),
            StepMessage::NewNum(num) => move_fits(v.modified_steps, i as int, num as nat),
            StepMessage::Edit => i < v.modified_steps.len(),
            _ => i < v.modified_steps.len() ==> step_message_fits(v.modified_steps[i as int], sm),
        },
        BuildMessage::AddStepMessage(am) => match am {
            AddStepMessage::Add(dest, _, _, num, _, _, _, _) => dest is Some ==> {
                &&& num is Some
                &&& add_fits(v.modified_steps, num->0 as nat)
                &&& v.modified_steps.len() + 2 <= usize::MAX
            },
            _ => add_message_fits(v.add_step, am),
        },
        BuildMessage::BeforeRequiredInputMessage(i, _) => i < v.modified_before.len(),
        BuildMessage::AfterRequiredInputMessage(i, _) => i < v.modified_after.len(),
        BuildMessage::DeleteConfirmed => v.search_value is Some,
        _ => true,
    }
}

/// Whether none of the characters of `val` is forbidden in a recipe name.
fn name_ok(val: &str) -> (r: bool)
    ensures
        r == name_allowed(val@),
{
    let c = chars_of(val);
    let mut k: usize = 0;
    while k < c.len()
        invariant
            k <= c@.len(),
            c@ == val@,
            forall|j: int| 0 <= j < k ==> !windows_forbidden(#[trigger] val@[j]),
        decreases c@.len() - k,
    {
        let x = c[k];
        if x == '<' || x == '>' || x == ':' || x == '"' || x == '/' || x == '\\' || x == '|' || x == '?'
            || x == '*' {
            assert(windows_forbidden(val@[k as int]));
            return false;
        }
        k = k + 1;
    }
    true
}

/// Whether some step is open for editing.
fn some_editing(s: &Vec<BuildStep>) -> (r: bool)
    ensures
        r == any_editing(step_views(s@)),
{
    let mut k: usize = 0;
    while k < s.len()
        invariant
            k <= s@.len(),
            forall|j: int| 0 <= j < k ==> !(#[trigger] step_views(s@)[j]).editing,
        decreases s@.len() - k,
    {
        if s[k].editing {
            assert(step_views(s@)[k as int].editing);
            return true;
        }
        k = k + 1;
    }
    false
}

/// Copies of the steps.
fn copy_steps(s: &Vec<BuildStep>) -> (r: Vec<BuildStep>)
    ensures
        step_views(r@) == step_views(s@),
{
    let mut r: Vec<BuildStep> = Vec::new();
    let mut k: usize = 0;
    while k < s.len()
        invariant
            k <= s@.len(),
            step_views(r@) == step_views(s@).take(k as int),
        decreases s@.len() - k,
    {
        let ghost prev = r@;
        r.push(s[k].duplicate());
        proof {
            assert(step_views(prev).len() == prev.len());
            assert(prev.len() == k);
            assert forall|j: int| 0 <= j < k + 1 implies #[trigger] step_views(r@)[j] == step_views(s@).take(k + 1)[j] by {
                if j < k {
                    assert(r@[j] == prev[j]);
                    assert(step_views(prev)[j] == step_views(s@).take(k as int)[j]);
                }
            }
            assert(step_views(r@) =~= step_views(s@).take(k + 1));
        }
        k = k + 1;
    }
    proof {
        assert(step_views(s@).take(s@.len() as int) =~= step_views(s@));
    }
    r
}

/// Opens step `i` for editing and closes every other one.
fn open_only(s: &mut Vec<BuildStep>, i: usize)
    ensures
        step_views(final(s)@) == opened_only(step_views(old(s)@), i as int),
{
    let ghost before = step_views(s@);
    let mut k: usize = 0;
    while k < s.len()
        invariant
            k <= s@.len(),
            s@.len() == before.len(),
            forall|j: int| 0 <= j < k ==> #[trigger] step_views(s@)[j] == opened_only(before, i as int)[j],
            forall|j: int| k <= j < s@.len() ==> #[trigger] step_views(s@)[j] == before[j],
        decreases s@.len() - k,
    {
        let mut st = s[k].duplicate();
        st.editing = k == i;
        let ghost prev = s@;
        s.set(k, st);
        proof {
            assert(step_views(prev)[k as int] == before[k as int]);
            assert(step_views(prev)[k as int] == prev[k as int]@);
            assert forall|j: int| 0 <= j < k + 1 implies #[trigger] step_views(s@)[j] == opened_only(before, i as int)[j] by {
                assert(step_views(s@)[j] == s@[j]@);
                if j < k {
                    assert(s@[j] == prev[j]);
                    assert(step_views(prev)[j] == prev[j]@);
                }
            }
            assert forall|j: int| k + 1 <= j < s@.len() implies #[trigger] step_views(s@)[j] == before[j] by {
                assert(step_views(s@)[j] == s@[j]@);
                assert(s@[j] == prev[j]);
                assert(step_views(prev)[j] == prev[j]@);
            }
        }
        k = k + 1;
    }
    proof {
        assert(step_views(s@) =~= opened_only(before, i as int));
    }
}

impl Build {
    /// An empty builder: no recipe chosen, nothing to choose from yet, the
    /// step about to be added numbered one.
    pub fn new(action_names: &Vec<String>) -> (r: Build)
        ensures
            r@ == (BuildView {
                unsaved: false,
                save_message: "Unsaved Changes!"@,
                steps: Seq::empty(),
                before: Seq::empty(),
                after: Seq::empty(),
                modified_steps: Seq::empty(),
                modified_before: Seq::empty(),
                modified_after: Seq::empty(),
                add_step: AddStep::new_view(1, 0, views(action_names@)),
                search_options: Seq::empty(),
                search_value: None,
                name_entry: Seq::empty(),
                state: BuildState::Steps,
            }),
    {
        let r = Build {
            unsaved: false,
            save_message: copy_str("Unsaved Changes!"),
            steps: Vec::new(),
            before_inputs: Vec::new(),
            after_inputs: Vec::new(),
            modified_steps: Vec::new(),
            modified_before_inputs: Vec::new(),
            modified_after_inputs: Vec::new(),
            add_step: AddStep::new(1, 0, action_names),
            search_options: Vec::new(),
            search_value: None,
            name_entry_value: String::new(),
            state: BuildState::Steps,
        };
        assert(r@.steps =~= Seq::<BuildStepView>::empty());
        assert(r@.modified_steps =~= Seq::<BuildStepView>::empty());
        assert(r@.before =~= Seq::<Seq<char>>::empty());
        assert(r@.after =~= Seq::<Seq<char>>::empty());
        assert(r@.modified_before =~= Seq::<Seq<char>>::empty());
        assert(r@.modified_after =~= Seq::<Seq<char>>::empty());
        assert(r@.search_options =~= Seq::<Seq<char>>::empty());
        assert(r@.name_entry =~= Seq::<char>::empty());
        r
    }

    /// Takes a message: `node_names` and `action_names` are what the
    /// destinations and actions of steps are checked against. The builder
    /// changes as `build_after` says and asks of its surroundings what
    /// `build_action` says.
    pub fn update(&mut self, message: BuildMessage, node_names: &Vec<String>, action_names: &Vec<String>) -> (r: BuildAction)
        requires
            build_message_fits(old(self)@, message),
        ensures
            final(self)@ == build_after(old(self)@, message, views(node_names@), views(action_names@)),
            action_view(r) == build_action(old(self)@, message),
    {
        match message {
            BuildMessage::Cancel => {
                self.name_entry_value = String::new();
                self.state = BuildState::Steps;
                assert(self.name_entry_value@ =~= Seq::<char>::empty());
                BuildAction::Nothing
            },
            BuildMessage::StepMessage(i, sm) => {
                match sm {
                    StepMessage::Delete => {
                        let ghost before = self.modified_steps@;
                        let old_len = self.modified_steps.len();
                        delete_step(&mut self.modified_steps, i);
                        assert(step_views(before).len() == before.len());
                        assert(step_views(self.modified_steps@).len() == self.modified_steps@.len());
                        assert(renumbered(step_views(before).remove(i as int)).len() == before.len() - 1);
                        assert(self.modified_steps@.len() < old_len);
                        let len = self.modified_steps.len();
                        self.add_step.step_num = len + 1;
                        self.add_step.steps_len = len;
                    },
                    StepMessage::NewNum(num) => {
                        move_step(&mut self.modified_steps, i, num);
                    },
                    StepMessage::Edit => {
                        self.unsaved = true;
                        open_only(&mut self.modified_steps, i);
                    },
                    other => {
                        if i < self.modified_steps.len() {
                            assert(step_views(self.modified_steps@)[i as int] == self.modified_steps@[i as int]@);
                            let mut st = self.modified_steps[i].duplicate();
                            st.update(other, node_names, action_names);
                            let ghost prev = self.modified_steps@;
                            self.modified_steps.set(i, st);
                            proof {
                                assert(step_views(self.modified_steps@) =~= step_views(prev).update(
                                    i as int,
                                    st@,
                                ));
                            }
                        }
                    },
                }
                BuildAction::Nothing
            },
            BuildMessage::AddStepMessage(am) => {
                match am {
                    AddStepMessage::Add(dest, hover, action, num, hours, mins, secs, wait) => {
                        match dest {
                            Some(d) => {
                                self.unsaved = true;
                                let n = match num {
                                    Some(n) => n,
                                    None => 0,
                                };
                                let st = BuildStep::new(
                                    n,
                                    self.steps.len(),
                                    node_names,
                                    action_names,
                                    Some(d),
                                    hover,
                                    action,
                                    hours,
                                    mins,
                                    secs,
                                    wait,
                                );
                                let ghost before = self.modified_steps@;
                                insert_step(&mut self.modified_steps, st);
                                assert(step_views(before).len() == before.len());
                                assert(step_views(self.modified_steps@).len() == self.modified_steps@.len());
                                assert(added_numbers(step_views(before), n as nat).len() == before.len());
                                assert(self.modified_steps@.len() == before.len() + 1) by {
                                    let t = added_numbers(step_views(before), n as nat).push(st@);
                                    lemma_sort_len(t);
                                }
                                let len = self.modified_steps.len();
                                self.add_step.step_num = len + 1;
                                self.add_step.steps_len = len;
                                self.add_step.hours_value = String::new();
                                self.add_step.mins_value = String::new();
                                self.add_step.secs_value = String::new();
                                self.add_step.hover = false;
                                self.add_step.wait = false;
                                assert(self.add_step.hours_value@ =~= Seq::<char>::empty());
                            },
                            None => {
                                self.add_step.destination_style = Theme::Red;
                            },
                        }
                    },
                    other => {
                        self.add_step.update(other);
                    },
                }
                BuildAction::Nothing
            },
            BuildMessage::RequiredInputTab => {
                self.state = BuildState::RequiredInput;
                BuildAction::Nothing
            },
            BuildMessage::StepsTab => {
                self.state = BuildState::Steps;
                BuildAction::Nothing
            },
            BuildMessage::BeforeRequiredInputMessage(i, rm) => {
                match rm {
                    RequiredInputMessage::Delete => {
                        self.unsaved = true;
                        let ghost prev = self.modified_before_inputs@;
                        self.modified_before_inputs.remove(i);
                        assert(views(self.modified_before_inputs@) =~= views(prev).remove(i as int));
                    },
                    RequiredInputMessage::InputChanged(val) => {
                        let ghost prev = self.modified_before_inputs@;
                        let ghost vv = val@;
                        self.modified_before_inputs.set(i, val);
                        assert(views(self.modified_before_inputs@) =~= views(prev).update(i as int, vv));
                    },
                }
                BuildAction::Nothing
            },
            BuildMessage::AfterRequiredInputMessage(i, rm) => {
                match rm {
                    RequiredInputMessage::Delete => {
                        self.unsaved = true;
                        let ghost prev = self.modified_after_inputs@;
                        self.modified_after_inputs.remove(i);
                        assert(views(self.modified_after_inputs@) =~= views(prev).remove(i as int));
                    },
                    RequiredInputMessage::InputChanged(val) => {
                        let ghost prev = self.modified_after_inputs@;
                        let ghost vv = val@;
                        self.modified_after_inputs.set(i, val);
                        assert(views(self.modified_after_inputs@) =~= views(prev).update(i as int, vv));
                    },
                }
                BuildAction::Nothing
            },
            BuildMessage::AddInputBefore => {
                self.unsaved = true;
                let ghost prev = self.modified_before_inputs@;
                self.modified_before_inputs.push(String::new());
                assert(views(self.modified_before_inputs@) =~= views(prev).push(Seq::empty()));
                BuildAction::Nothing
            },
            BuildMessage::AddInputAfter => {
                self.unsaved = true;
                let ghost prev = self.modified_after_inputs@;
                self.modified_after_inputs.push(String::new());
                assert(views(self.modified_after_inputs@) =~= views(prev).push(Seq::empty()));
                BuildAction::Nothing
            },
            BuildMessage::SearchChanged(recipe) => {
                if self.unsaved {
                    self.save_message = copy_str("Save or Cancel before changing recipe!");
                    BuildAction::Nothing
                } else {
                    self.search_value = Some(recipe);
                    BuildAction::Load
                }
            },
            BuildMessage::ConfirmDelete => {
                self.state = BuildState::DeleteConfirm;
                BuildAction::Nothing
            },
            BuildMessage::DeleteConfirmed => {
                let chosen = copy_opt(&self.search_value);
                self.search_value = None;
                self.state = BuildState::Steps;
                match chosen {
                    Some(n) => BuildAction::Delete(n),
                    None => BuildAction::Nothing,
                }
            },
            BuildMessage::UpdateSearch => BuildAction::Refresh,
            BuildMessage::SaveMessage(SaveBarMessage::Cancel) => {
                self.save_message = copy_str("Unsaved Changes!");
                self.modified_steps = copy_steps(&self.steps);
                self.modified_before_inputs = copy_strings(&self.before_inputs);
                self.modified_after_inputs = copy_strings(&self.after_inputs);
                self.unsaved = false;
                BuildAction::Nothing
            },
            BuildMessage::NameEntryChanged(val) => {
                if name_ok(val.as_str()) {
                    self.name_entry_value = val;
                }
                BuildAction::Nothing
            },
            BuildMessage::SaveMessage(SaveBarMessage::Save) => {
                if some_editing(&self.modified_steps) && self.modified_steps.len() > 0 {
                    self.save_message = copy_str("'Ok' all steps before saving");
                } else {
                    self.save_message = copy_str("Unsaved Changes!");
                    self.name_entry_value = match &self.search_value {
                        Some(n) => copy_str(n.as_str()),
                        None => String::new(),
                    };
                    assert(self.search_value is None ==> self.name_entry_value@ =~= Seq::<char>::empty());
                    self.state = BuildState::EnterName;
                }
                BuildAction::Nothing
            },
            BuildMessage::ConfirmOverWrite => BuildAction::Save,
            BuildMessage::SaveWithName => BuildAction::CheckName(copy_str(self.name_entry_value.as_str())),
            BuildMessage::Saved => BuildAction::Nothing,
        }
    }

    /// The chosen recipe as read (`None` where it could not be read): its
    /// required inputs and its steps, numbered from one in file order and
    /// checked against `node_names` and `action_names`, become both the
    /// saved and the edited recipe, and the step about to be added comes
    /// after them; an unread recipe empties every list.
    pub fn recipe_loaded(&mut self, recipe: Option<SaveRecipe>, node_names: &Vec<String>, action_names: &Vec<String>)
        requires
            recipe matches Some(r) ==> (r.steps matches Some(st) ==> st@.len() < usize::MAX),
        ensures
            match recipe {
                Some(r) => final(self)@ == loaded_view(old(self)@, r, views(node_names@), views(action_names@)),
                None => final(self)@ == cleared(old(self)@),
            },
    {
        match recipe {
            Some(r) => {
                let ghost rv = r;
                let SaveRecipe { required_inputs: SaveInput { before, after }, steps } = r;
                let before = match before {
                    Some(b) => b,
                    None => Vec::new(),
                };
                let after = match after {
                    Some(a) => a,
                    None => Vec::new(),
                };
                let st = match steps {
                    Some(x) => x,
                    None => Vec::new(),
                };
                assert(views(before@) =~= opt_names(rv.required_inputs.before));
                assert(views(after@) =~= opt_names(rv.required_inputs.after));
                let ghost recs = records(st@);
                assert(recs =~= match opt_records(rv.steps) {
                    Some(x) => x,
                    None => Seq::<StepRecord>::empty(),
                });
                let n = st.len();
                let ghost target = loaded_steps(recs, views(node_names@), views(action_names@));
                let mut list: Vec<BuildStep> = Vec::new();
                let mut i: usize = 0;
                while i < n
                    invariant
                        i <= n,
                        n == st@.len(),
                        n < usize::MAX,
                        recs == records(st@),
                        target == loaded_steps(recs, views(node_names@), views(action_names@)),
                        step_views(list@) == target.take(i as int),
                    decreases n - i,
                {
                    let e = &st[i];
                    assert(recs[i as int] == e@);
                    let b = BuildStep::new(
                        i + 1,
                        n,
                        node_names,
                        action_names,
                        Some(copy_str(e.selected_destination.as_str())),
                        e.hover,
                        Some(copy_str(e.selected_action.as_str())),
                        copy_str(e.hours_value.as_str()),
                        copy_str(e.mins_value.as_str()),
                        copy_str(e.secs_value.as_str()),
                        e.wait,
                    );
                    let ghost prev = list@;
                    list.push(b);
                    proof {
                        assert(step_views(prev).len() == prev.len());
                        assert(target.len() == n);
                        assert(prev.len() == i);
                        assert(target[i as int] == b@);
                        assert forall|j: int| 0 <= j < i + 1 implies #[trigger] step_views(list@)[j] == target.take(i + 1)[j] by {
                            if j < i {
                                assert(list@[j] == prev[j]);
                                assert(step_views(prev)[j] == target.take(i as int)[j]);
                            }
                        }
                        assert(step_views(list@) =~= target.take(i + 1));
                    }
                    i = i + 1;
                }
                proof {
                    assert(target.take(n as int) =~= target);
                }
                self.add_step.step_num = n + 1;
                self.add_step.steps_len = n;
                self.modified_steps = copy_steps(&list);
                self.steps = list;
                self.modified_before_inputs = copy_strings(&before);
                self.before_inputs = before;
                self.modified_after_inputs = copy_strings(&after);
                self.after_inputs = after;
            },
            None => {
                self.clear();
            },
        }
    }

    /// The recipe folder listed: the choices become the recipe names of its
    /// files, in the order of `String`.
    pub fn recipes_listed(&mut self, files: &Vec<String>)
        ensures
            final(self)@ == listed_view(old(self)@, views(files@)),
    {
        self.search_options = recipe_options(files);
    }

    /// The recipe folder listed after `Refresh`: with a recipe chosen, whether
    /// it is among the new choices (then it is to be read again); with none
    /// chosen, every list of the recipe is emptied.
    pub fn refresh(&mut self, files: &Vec<String>) -> (r: bool)
        ensures
            old(self)@.search_value matches Some(n) ==> {
                &&& r == listed_view(old(self)@, views(files@)).search_options.contains(n)
                &&& final(self)@ == listed_view(old(self)@, views(files@))
            },
            old(self)@.search_value is None ==> {
                &&& !r
                &&& final(self)@ == cleared(listed_view(old(self)@, views(files@)))
            },
    {
        self.recipes_listed(files);
        match &self.search_value {
            Some(n) => contains_name(&self.search_options, n.as_str()),
            None => {
                self.clear();
                false
            },
        }
    }

    /// Whether a recipe of the entered name exists, as asked by
    /// `CheckName`: where it does, the builder asks whether to overwrite it;
    /// where it does not, the recipe is to be saved (`true`).
    pub fn name_checked(&mut self, exists: bool) -> (r: bool)
        ensures
            r == !exists,
            exists ==> final(self)@ == (BuildView { state: BuildState::OverwriteConfirm, ..old(self)@ }),
            !exists ==> final(self)@ == old(self)@,
    {
        if exists {
            self.state = BuildState::OverwriteConfirm;
        }
        !exists
    }

    /// Saves the recipe under edit on the given platform (`windows` tells
    /// how a name is cleaned up), as `saved_as` says.
    pub fn save_on(&mut self, windows: bool) -> (r: Option<SavePlan>)
        requires
            all_chosen(old(self)@.modified_steps),
        ensures
            saved_as(old(self)@, windows, final(self)@, r),
    {
        self.save_message = copy_str("Unsaved Changes!");
        if self.name_entry_value.as_str().is_empty() {
            self.name_entry_value = String::new();
            assert(self.name_entry_value@ =~= Seq::<char>::empty());
            self.clear();
            return None;
        }
        self.modified_before_inputs = keep_filled(&self.modified_before_inputs);
        self.modified_after_inputs = keep_filled(&self.modified_after_inputs);
        let before = if self.modified_before_inputs.len() > 0 {
            Some(copy_strings(&self.modified_before_inputs))
        } else {
            None
        };
        let after = if self.modified_after_inputs.len() > 0 {
            Some(copy_strings(&self.modified_after_inputs))
        } else {
            None
        };
        assert(step_views(self.modified_steps@).len() == self.modified_steps@.len());
        let steps = if self.modified_steps.len() > 0 {
            Some(records_of(&self.modified_steps))
        } else {
            None
        };
        let old_name = match &self.search_value {
            Some(n) => copy_str(n.as_str()),
            None => String::new(),
        };
        assert(self.search_value is None ==> old_name@ =~= Seq::<char>::empty());
        let mut missing_old = concat("No old recipe '", self.name_entry_value.as_str());
        append_str(&mut missing_old, "' is new");
        let name = replace_os_char_on(windows, copy_str(self.name_entry_value.as_str()));
        let probe_name = remove_all_str(name.as_str(), " ");
        self.name_entry_value = copy_str(name.as_str());
        self.steps = copy_steps(&self.modified_steps);
        self.before_inputs = copy_strings(&self.modified_before_inputs);
        self.after_inputs = copy_strings(&self.modified_after_inputs);
        self.unsaved = false;
        self.search_value = Some(copy_str(name.as_str()));
        self.state = BuildState::Steps;
        Some(SavePlan {
            old_name,
            missing_old,
            name,
            probe_name,
            recipe: SaveRecipe { required_inputs: SaveInput { before, after }, steps },
        })
    }

    /// Saves the recipe under edit; the name is cleaned up for the platform
    /// the library runs on.
    pub fn save(&mut self) -> (r: Option<SavePlan>)
        requires
            all_chosen(old(self)@.modified_steps),
        ensures
            saved_as(old(self)@, true, final(self)@, r) || saved_as(old(self)@, false, final(self)@, r),
    {
        let windows = crate::logger::on_windows();
        self.save_on(windows)
    }

    /// Empties every list of the recipe.
    fn clear(&mut self)
        ensures
            final(self)@ == cleared(old(self)@),
    {
        self.modified_steps = Vec::new();
        self.modified_before_inputs = Vec::new();
        self.modified_after_inputs = Vec::new();
        self.steps = Vec::new();
        self.before_inputs = Vec::new();
        self.after_inputs = Vec::new();
        assert(self@.steps =~= Seq::<BuildStepView>::empty());
        assert(self@.modified_steps =~= Seq::<BuildStepView>::empty());
        assert(self@.before =~= Seq::<Seq<char>>::empty());
        assert(self@.after =~= Seq::<Seq<char>>::empty());
        assert(self@.modified_before =~= Seq::<Seq<char>>::empty());
        assert(self@.modified_after =~= Seq::<Seq<char>>::empty());
    }
}

impl AddStep {
    /// The value of a fresh step about to be added.
    pub open spec fn new_view(step_num: nat, steps_len: nat, actions: Seq<Seq<char>>) -> AddStepView {
        AddStepView {
            step_num,
            steps_len,
            hover: false,
            destination: None,
            action: first_name(actions),
            secs: Seq::empty(),
            mins: Seq::empty(),
            hours: Seq::empty(),
            wait: false,
            destination_style: Theme::Blue,
        }
    }
}

/// The edited step list stays numbered from one in list order under every
/// message to the builder, where a step is moved to a number from one to
/// the list's length and a step is added with a number from one to one past
/// it (the numbers the builder offers).
pub proof fn lemma_numbering_kept(
    v: BuildView,
    m: BuildMessage,
    nodes: Seq<Seq<char>>,
    actions: Seq<Seq<char>>,
)
    requires
        numbered(v.modified_steps),
        numbered(v.steps),
        build_message_fits(v, m),
        m matches BuildMessage::StepMessage(_, StepMessage::NewNum(num)) ==> num <= v.modified_steps.len(),
        m matches BuildMessage::AddStepMessage(AddStepMessage::Add(Some(_), _, _, Some(num), _, _, _, _))
            ==> num <= v.modified_steps.len() + 1,
    ensures
        numbered(build_after(v, m, nodes, actions).modified_steps),
        numbered(build_after(v, m, nodes, actions).steps),
{
    match m {
        BuildMessage::StepMessage(i, sm) => match sm {
            StepMessage::NewNum(num) => {
                lemma_move_reorders(v.modified_steps, i as int, num as nat);
            },
            StepMessage::Delete => {},
            StepMessage::Edit => {},
            _ => {
                if i < v.modified_steps.len() {
                    let w = build_after(v, m, nodes, actions).modified_steps;
                    assert forall|k: int| 0 <= k < w.len() implies #[trigger] w[k].step_num == k + 1 by {
                        if k != i {
                            assert(w[k] == v.modified_steps[k]);
                        }
                    }
                }
            },
        },
        BuildMessage::AddStepMessage(am) => match am {
            AddStepMessage::Add(dest, hover, action, num, hours, mins, secs, wait) => match dest {
                Some(d) => {
                    let n = num->0 as nat;
                    let x = new_step_view(n, v.steps.len(), nodes, actions, Some(d@), hover, opt_view(action), hours@, mins@, secs@, wait);
                    lemma_add_inserts(v.modified_steps, x);
                    let sorted = sort_by_num(added_numbers(v.modified_steps, n).push(x));
                    let w = with_len(sorted);
                    assert forall|k: int| 0 <= k < w.len() implies #[trigger] w[k].step_num == k + 1 by {
                        assert(w[k].step_num == sorted[k].step_num);
                    }
                },
                None => {},
            },
            _ => {},
        },
        _ => {},
    }
}

/// Cancelling the edit brings back the recipe as saved: whatever messages
/// changed the edited steps and inputs, `Cancel` on the save bar makes
/// them the saved ones again and leaves nothing unsaved.
pub proof fn lemma_cancel_restores(v: BuildView, nodes: Seq<Seq<char>>, actions: Seq<Seq<char>>)
    ensures
        build_after(v, BuildMessage::SaveMessage(SaveBarMessage::Cancel), nodes, actions).modified_steps == v.steps,
        build_after(v, BuildMessage::SaveMessage(SaveBarMessage::Cancel), nodes, actions).modified_before == v.before,
        build_after(v, BuildMessage::SaveMessage(SaveBarMessage::Cancel), nodes, actions).modified_after == v.after,
        !build_after(v, BuildMessage::SaveMessage(SaveBarMessage::Cancel), nodes, actions).unsaved,
{
}

/// A save with a name makes the edited recipe the saved one: the saved
/// steps and inputs are the edited ones (inputs without text dropped), the
/// recipe is chosen under its saved name, and nothing is left unsaved.
pub proof fn lemma_save_keeps_edits(v: BuildView, windows: bool, after: BuildView, r: Option<SavePlan>)
    requires
        saved_as(v, windows, after, r),
        v.name_entry.len() > 0,
    ensures
        after.steps == v.modified_steps,
        after.modified_steps == v.modified_steps,
        after.before == filled(v.modified_before),
        after.after == filled(v.modified_after),
        after.search_value == Some(os_clean(windows, v.name_entry)),
        !after.unsaved,
{
}

/// A recipe read into the builder is numbered from one in file order,
/// whatever numbers its file holds.
pub proof fn lemma_loaded_numbered(v: BuildView, r: SaveRecipe, nodes: Seq<Seq<char>>, actions: Seq<Seq<char>>)
    ensures
        numbered(loaded_view(v, r, nodes, actions).steps),
        numbered(loaded_view(v, r, nodes, actions).modified_steps),
{
}

/// A saved recipe reads back as it was edited: reading the records that
/// saving writes gives, at each position, the same step (number,
/// destination, action, times, hover, wait), closed and checked again
/// against the nodes and actions.
pub proof fn lemma_saved_steps_read_back(s: Seq<BuildStepView>, nodes: Seq<Seq<char>>, actions: Seq<Seq<char>>)
    requires
        numbered(s),
        all_chosen(s),
        s.len() > 0,
    ensures
        loaded_steps(saved_steps(s)->0, nodes, actions).len() == s.len(),
        forall|k: int|
            0 <= k < s.len() ==> #[trigger] loaded_steps(saved_steps(s)->0, nodes, actions)[k] == new_step_view(
                s[k].step_num,
                s.len(),
                nodes,
                actions,
                s[k].destination,
                s[k].hover,
                s[k].action,
                s[k].hours,
                s[k].mins,
                s[k].secs,
                s[k].wait,
            ),
{
    assert forall|k: int| 0 <= k < s.len() implies #[trigger] loaded_steps(saved_steps(s)->0, nodes, actions)[k]
        == new_step_view(
        s[k].step_num,
        s.len(),
        nodes,
        actions,
        s[k].destination,
        s[k].hover,
        s[k].action,
        s[k].hours,
        s[k].mins,
        s[k].secs,
        s[k].wait,
    ) by {
        assert(s[k].step_num == k + 1);
        assert(s[k].destination is Some && s[k].action is Some);
    }
}

} // verus!
