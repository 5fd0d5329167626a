//! Actions: named lists of G-code commands run at a destination.
use vstd::prelude::*;
use crate::text::{copy_strings, str_eq, views};

verus! {

/// A named list of G-code commands; the command `WAIT` makes the action
/// wait out the step's time instead of repeating its commands.
#[derive(Clone, Debug, PartialEq, Eq)]
pub struct Action {
    pub name: String,
    pub commands: Vec<String>,
}

/// The mathematical value of an action.
pub struct ActionView {
    pub name: Seq<char>,
    pub commands: Seq<Seq<char>>,
}

impl View for Action {
    type V = ActionView;

    open spec fn view(&self) -> ActionView {
        ActionView { name: self.name@, commands: views(self.commands@) }
    }
}

/// The configured actions.
#[derive(Clone, Debug)]
pub struct Actions {
    pub action: Vec<Action>,
}

impl View for Actions {
    type V = Seq<ActionView>;

    open spec fn view(&self) -> Seq<ActionView> {
        self.action@.map_values(|a: Action| a@)
    }
}

/// The commands of the last action named `name` (later actions of the same
/// name replace earlier ones).
pub open spec fn commands_of(actions: Seq<ActionView>, name: Seq<char>) -> Option<Seq<Seq<char>>>
    decreases actions.len(),
{
    if actions.len() == 0 {
        None
    } else if actions.last().name == name {
        Some(actions.last().commands)
    } else {
        commands_of(actions.drop_last(), name)
    }
}

/// The commands of the action named `name`; `None` where there is no such
/// action.
pub fn action_commands(actions: &Actions, name: &str) -> (r: Option<Vec<String>>)
    ensures
        r matches Some(c) ==> commands_of(actions@, name@) == Some(views(c@)),
        r is None ==> commands_of(actions@, name@) is None,
{
    let mut i = actions.action.len();
    assert(actions@.take(i as int) =~= actions@);
    while i > 0
        invariant
            i <= actions@.len(),
            commands_of(actions@, name@) == commands_of(actions@.take(i as int), name@),
        decreases i,
    {
        assert(actions@.take(i as int).drop_last() =~= actions@.take(i - 1));
        if str_eq(actions.action[i - 1].name.as_str(), name) {
            return Some(copy_strings(&actions.action[i - 1].commands));
        }
        i = i - 1;
    }
    None
}

} // verus!
