//! The action editor of the advanced tab: one entry per action, with its
//! name and its G-code commands as typed.
use vstd::prelude::*;
use crate::actions::{Action, ActionView, Actions};
use crate::config::SaveBarMessage;
use crate::naming::{fresh, fresh_name};
use crate::text::{copy_str, copy_strings, str_eq, views};
use crate::nodes::{first_index, lemma_first_index};

verus! {

/// A command input changed or removed.
#[derive(Clone, Debug)]
pub enum CommandInputMessage {
    InputChanged(String),
    Delete,
}

/// An edit of an action entry.
#[derive(Clone, Debug)]
pub enum ConfigActionMessage {
    NameChanged(String),
    Commands(usize, CommandInputMessage),
    AddCommand,
    Edit,
    Okay,
    Delete,
}

/// An edit of the action editor.
#[derive(Clone, Debug)]
pub enum ActionTabMessage {
    AddConfigAction,
    ConfigAction(usize, ConfigActionMessage),
    SaveMessage(SaveBarMessage),
}

/// The mathematical value of an action entry.
pub struct ConfigActionView {
    pub name: Seq<char>,
    pub commands: Seq<Seq<char>>,
    pub editing: bool,
}

/// An action as the editor shows it: its commands as typed, and whether it
/// is being edited.
pub struct ConfigAction {
    pub name: String,
    pub commands: Vec<String>,
    pub editing: bool,
}

impl View for ConfigAction {
    type V = ConfigActionView;

    open spec fn view(&self) -> ConfigActionView {
        ConfigActionView { name: self.name@, commands: views(self.commands@), editing: self.editing }
    }
}

/// The placeholder text of a command not typed yet.
pub open spec fn command_placeholder() -> Seq<char> {
    "G-code Command"@
}

/// An entry after its edit is confirmed: commands that still hold the
/// placeholder text are dropped and it is no longer being edited.
pub open spec fn action_confirmed(c: ConfigActionView) -> ConfigActionView {
    ConfigActionView {
        commands: c.commands.filter(|s: Seq<char>| s != command_placeholder()),
        editing: false,
        ..c
    }
}

/// Whether message `m` can be applied to an entry with `n` commands (a
/// command it names exists).
pub open spec fn action_message_fits(m: ConfigActionMessage, n: int) -> bool {
    match m {
        ConfigActionMessage::Commands(j, _) => j < n,
        _ => true,
    }
}

/// The entry `c` after message `m`.
pub open spec fn action_after(c: ConfigActionView, m: ConfigActionMessage) -> ConfigActionView {
    match m {
        ConfigActionMessage::NameChanged(n) => ConfigActionView { name: n@, ..c },
        ConfigActionMessage::Commands(j, CommandInputMessage::Delete) => ConfigActionView {
            commands: c.commands.remove(j as int),
            ..c
        },
        ConfigActionMessage::Commands(j, CommandInputMessage::InputChanged(v)) => ConfigActionView {
            commands: c.commands.update(j as int, v@),
            ..c
        },
        ConfigActionMessage::AddCommand => ConfigActionView {
            commands: c.commands.push(Seq::empty()),
            ..c
        },
        ConfigActionMessage::Edit => ConfigActionView { editing: true, ..c },
        ConfigActionMessage::Okay => action_confirmed(c),
        ConfigActionMessage::Delete => c,
    }
}

impl ConfigAction {
    /// The entry of an action named `name` with `commands`.
    pub fn new(name: String, commands: Vec<String>) -> (r: ConfigAction)
        ensures
            r@ == (ConfigActionView { name: name@, commands: views(commands@), editing: false }),
    {
        ConfigAction { name, commands, editing: false }
    }

    /// A copy of this entry.
    pub fn duplicate(&self) -> (r: ConfigAction)
        ensures
            r@ == self@,
    {
        ConfigAction {
            name: copy_str(self.name.as_str()),
            commands: copy_strings(&self.commands),
            editing: self.editing,
        }
    }

    /// Confirms this entry's edit, as `action_confirmed` says.
    pub fn confirm(&mut self)
        ensures
            final(self)@ == action_confirmed(old(self)@),
    {
        let ghost pred = |s: Seq<char>| s != command_placeholder();
        let ghost start = views(self.commands@);
        let mut kept: Vec<String> = Vec::new();
        for i in 0..self.commands.len()
            invariant
                pred == (|s: Seq<char>| s != command_placeholder()),
                start == views(self.commands@),
                views(kept@) == start.take(i as int).filter(pred),
        {
            proof {
                reveal(Seq::filter);
                assert(start.take(i + 1).drop_last() =~= start.take(i as int));
                assert(start.take(i + 1).last() == self.commands@[i as int]@);
            }
            if !str_eq(self.commands[i].as_str(), "G-code Command") {
                let ghost before = kept@;
                kept.push(copy_str(self.commands[i].as_str()));
                assert(views(kept@) =~= views(before).push(self.commands@[i as int]@));
            }
        }
        assert(start.take(start.len() as int) =~= start);
        self.commands = kept;
        self.editing = false;
    }

    /// Applies message `m` to this entry, as `action_after` says.
    pub fn update(&mut self, m: ConfigActionMessage)
        requires
            action_message_fits(m, old(self)@.commands.len() as int),
        ensures
            final(self)@ == action_after(old(self)@, m),
    {
        let ghost before = views(self.commands@);
        match m {
            ConfigActionMessage::NameChanged(n) => {
                self.name = n;
            },
            ConfigActionMessage::Commands(j, CommandInputMessage::Delete) => {
                self.commands.remove(j);
                assert(views(self.commands@) =~= before.remove(j as int));
            },
            ConfigActionMessage::Commands(j, CommandInputMessage::InputChanged(v)) => {
                self.commands.set(j, v);
                assert(views(self.commands@) =~= before.update(j as int, self.commands@[j as int]@));
            },
            ConfigActionMessage::AddCommand => {
                self.commands.push(String::new());
                assert(views(self.commands@) =~= before.push(Seq::empty()));
            },
            ConfigActionMessage::Edit => {
                self.editing = true;
            },
            ConfigActionMessage::Okay => {
                self.confirm();
            },
            ConfigActionMessage::Delete => {},
        }
    }
}

/// The views of action entries.
pub open spec fn action_entry_views(v: Seq<ConfigAction>) -> Seq<ConfigActionView> {
    v.map_values(|c: ConfigAction| c@)
}

/// The entry of an action.
pub open spec fn action_entry(a: ActionView) -> ConfigActionView {
    ConfigActionView { name: a.name, commands: a.commands, editing: false }
}

/// The entries of a list of actions.
pub open spec fn action_entries(s: Seq<ActionView>) -> Seq<ConfigActionView> {
    s.map_values(|a: ActionView| action_entry(a))
}

/// Whether an action has the name `name`.
pub open spec fn action_named(name: Seq<char>) -> spec_fn(ActionView) -> bool {
    |a: ActionView| a.name == name
}

/// The names of a list of actions.
pub open spec fn action_names(s: Seq<ActionView>) -> Seq<Seq<char>> {
    s.map_values(|a: ActionView| a.name)
}

/// The mathematical value of the action editor.
pub struct ActionTabView {
    pub unsaved: bool,
    pub saved: Seq<ActionView>,
    pub modified: Seq<ActionView>,
    pub config: Seq<ConfigActionView>,
}

/// The action editor: the saved actions, the list being edited, its
/// entries, and whether there are unsaved changes.
pub struct ActionTab {
    pub unsaved: bool,
    pub saved: Actions,
    pub modified: Actions,
    pub config_actions: Vec<ConfigAction>,
}

impl View for ActionTab {
    type V = ActionTabView;

    open spec fn view(&self) -> ActionTabView {
        ActionTabView {
            unsaved: self.unsaved,
            saved: self.saved@,
            modified: self.modified@,
            config: action_entry_views(self.config_actions@),
        }
    }
}

/// Whether message `m` can be applied to the editor `t`: the entry it names
/// exists, an entry being renamed stands for an action of the list, a
/// command it names exists, and the list has room for an action.
pub open spec fn action_tab_fits(t: ActionTabView, m: ActionTabMessage) -> bool {
    match m {
        ActionTabMessage::AddConfigAction => t.modified.len() + 3 <= usize::MAX,
        ActionTabMessage::ConfigAction(i, cm) => i < t.config.len() && match cm {
            ConfigActionMessage::NameChanged(_) => first_index(t.modified, action_named(t.config[i as int].name)) is Some,
            _ => action_message_fits(cm, t.config[i as int].commands.len() as int),
        },
        ActionTabMessage::SaveMessage(_) => true,
    }
}

/// The editor `t` after message `m`. Saving is not done here: the save
/// button leaves the editor as it is.
pub open spec fn action_tab_after(t: ActionTabView, m: ActionTabMessage) -> ActionTabView {
    match m {
        ActionTabMessage::AddConfigAction => {
            let name = fresh(action_names(t.modified), "New Action"@);
            ActionTabView {
                unsaved: true,
                modified: t.modified.push(ActionView { name, commands: Seq::empty() }),
                config: t.config.push(ConfigActionView { name, commands: Seq::empty(), editing: false }),
                ..t
            }
        },
        ActionTabMessage::ConfigAction(i, cm) => match cm {
            ConfigActionMessage::Delete => ActionTabView { config: t.config.remove(i as int), ..t },
            ConfigActionMessage::NameChanged(n) => match first_index(t.modified, action_named(t.config[i as int].name)) {
                Some(idx) => ActionTabView {
                    unsaved: true,
                    modified: t.modified.update(idx, ActionView { name: n@, ..t.modified[idx] }),
                    config: t.config.update(i as int, ConfigActionView { name: n@, ..t.config[i as int] }),
                    ..t
                },
                None => t,
            },
            ConfigActionMessage::Edit => {
                let cs = t.config.map_values(|c: ConfigActionView| action_confirmed(c));
                ActionTabView {
                    unsaved: true,
                    config: cs.update(i as int, ConfigActionView { editing: true, ..cs[i as int] }),
                    ..t
                }
            },
            _ => ActionTabView {
                config: t.config.update(i as int, action_after(t.config[i as int], cm)),
                ..t
            },
        },
        ActionTabMessage::SaveMessage(SaveBarMessage::Cancel) => ActionTabView {
            unsaved: false,
            modified: t.saved,
            config: action_entries(t.saved),
            ..t
        },
        ActionTabMessage::SaveMessage(SaveBarMessage::Save) => t,
    }
}

/// A copy of a list of actions.
fn copy_actions(a: &Actions) -> (r: Actions)
    ensures
        r@ == a@,
{
    let mut v: Vec<Action> = Vec::new();
    for i in 0..a.action.len()
        invariant
            v@.len() == i,
            forall|k: int| 0 <= k < i ==> #[trigger] v@[k]@ == a.action@[k]@,
    {
        v.push(Action {
            name: copy_str(a.action[i].name.as_str()),
            commands: copy_strings(&a.action[i].commands),
        });
    }
    let r = Actions { action: v };
    assert(r@ =~= a@);
    r
}

/// The entries of a list of actions.
fn entries_of_actions(a: &Actions) -> (r: Vec<ConfigAction>)
    ensures
        action_entry_views(r@) == action_entries(a@),
{
    let mut v: Vec<ConfigAction> = Vec::new();
    for i in 0..a.action.len()
        invariant
            v@.len() == i,
            forall|k: int| 0 <= k < i ==> #[trigger] v@[k]@ == action_entry(a@[k]),
    {
        v.push(ConfigAction::new(
            copy_str(a.action[i].name.as_str()),
            copy_strings(&a.action[i].commands),
        ));
    }
    assert(action_entry_views(v@) =~= action_entries(a@));
    v
}

/// The position of the first action named `name`.
fn find_action(a: &Actions, name: &str) -> (r: Option<usize>)
    ensures
        r matches Some(k) ==> first_index(a@, action_named(name@)) == Some(k as int) && k < a@.len(),
        r is None ==> first_index(a@, action_named(name@)) is None,
{
    let ghost p = action_named(name@);
    for i in 0..a.action.len()
        invariant
            p == action_named(name@),
            forall|k: int| 0 <= k < i ==> !p(#[trigger] a@[k]),
    {
        if str_eq(a.action[i].name.as_str(), name) {
            proof {
                lemma_first_index(a@, p, i as int);
            }
            return Some(i);
        }
    }
    proof {
        lemma_first_index(a@, p, a@.len() as int);
    }
    None
}

impl ActionTab {
    /// The editor for the actions `saved`, with no unsaved changes.
    pub fn new(saved: Actions) -> (r: ActionTab)
        ensures
            r@ == (ActionTabView {
                unsaved: false,
                saved: saved@,
                modified: saved@,
                config: action_entries(saved@),
            }),
    {
        let modified = copy_actions(&saved);
        let config_actions = entries_of_actions(&saved);
        ActionTab { unsaved: false, saved, modified, config_actions }
    }

    /// Applies message `m`, as `action_tab_after` says.
    pub fn update(&mut self, m: ActionTabMessage)
        requires
            action_tab_fits(old(self)@, m),
        ensures
            final(self)@ == action_tab_after(old(self)@, m),
    {
        let ghost t = self@;
        match m {
            ActionTabMessage::AddConfigAction => {
                let mut names: Vec<String> = Vec::new();
                for k in 0..self.modified.action.len()
                    invariant
                        names@.len() == k,
                        forall|j: int| 0 <= j < k ==> #[trigger] names@[j]@ == self.modified@[j].name,
                {
                    names.push(copy_str(self.modified.action[k].name.as_str()));
                }
                assert(views(names@) =~= action_names(self.modified@));
                let name = fresh_name(&names, "New Action");
                let ghost nv = name@;
                let a = Action { name: copy_str(name.as_str()), commands: Vec::new() };
                assert(a@.commands =~= Seq::<Seq<char>>::empty());
                self.modified.action.push(a);
                let c = ConfigAction::new(name, Vec::new());
                assert(c@.commands =~= Seq::<Seq<char>>::empty());
                self.config_actions.push(c);
                self.unsaved = true;
                assert(self@.modified =~= t.modified.push(ActionView { name: nv, commands: Seq::empty() }));
                assert(self@.config =~= t.config.push(ConfigActionView { name: nv, commands: Seq::empty(), editing: false }));
            },
            ActionTabMessage::ConfigAction(i, cm) => {
                match cm {
                    ConfigActionMessage::Delete => {
                        self.config_actions.remove(i);
                        assert(self@.config =~= t.config.remove(i as int));
                    },
                    ConfigActionMessage::NameChanged(n) => {
                        let idx = match find_action(&self.modified, self.config_actions[i].name.as_str()) {
                            Some(k) => k,
                            None => {
                                assert(false);
                                return;
                            },
                        };
                        let a = Action {
                            name: copy_str(n.as_str()),
                            commands: copy_strings(&self.modified.action[idx].commands),
                        };
                        self.modified.action.set(idx, a);
                        assert(self@.modified =~= t.modified.update(idx as int, ActionView { name: n@, ..t.modified[idx as int] }));
                        let mut c = self.config_actions.remove(i);
                        c.name = n;
                        self.config_actions.insert(i, c);
                        self.unsaved = true;
                        assert(self@.config =~= t.config.update(i as int, ConfigActionView { name: c@.name, ..t.config[i as int] }));
                    },
                    ConfigActionMessage::Edit => {
                        let mut done: Vec<ConfigAction> = Vec::new();
                        for k in 0..self.config_actions.len()
                            invariant
                                action_entry_views(self.config_actions@) == t.config,
                                done@.len() == k,
                                forall|j: int| 0 <= j < k ==> #[trigger] done@[j]@ == action_confirmed(t.config[j]),
                        {
                            let mut d = self.config_actions[k].duplicate();
                            d.confirm();
                            done.push(d);
                        }
                        let ghost cs = t.config.map_values(|c: ConfigActionView| action_confirmed(c));
                        assert(action_entry_views(done@) =~= cs);
                        let mut c = done.remove(i);
                        c.editing = true;
                        done.insert(i, c);
                        self.config_actions = done;
                        self.unsaved = true;
                        assert(self@.config =~= cs.update(i as int, ConfigActionView { editing: true, ..cs[i as int] }));
                    },
                    _ => {
                        let mut c = self.config_actions.remove(i);
                        c.update(cm);
                        self.config_actions.insert(i, c);
                        assert(self@.config =~= t.config.update(i as int, action_after(t.config[i as int], cm)));
                    },
                }
            },
            ActionTabMessage::SaveMessage(SaveBarMessage::Cancel) => {
                self.modified = copy_actions(&self.saved);
                self.config_actions = entries_of_actions(&self.saved);
                self.unsaved = false;
            },
            ActionTabMessage::SaveMessage(SaveBarMessage::Save) => {},
        }
    }
}

/// An action added in the editor gets a name that no action of the list
/// has.
pub proof fn lemma_added_action_is_new(t: ActionTabView)
    ensures
        !action_names(t.modified).contains(
            action_tab_after(t, ActionTabMessage::AddConfigAction).modified.last().name,
        ),
{
    crate::naming::lemma_fresh_is_new(action_names(t.modified), "New Action"@);
}

} // verus!
