//! The controller tab of the advanced tab: the controller's version and
//! build date, and its settings as edited before they are sent back.
use vstd::prelude::*;
use crate::config::SaveBarMessage;
use crate::grbl::{build_date_of, build_info, date_text, parse_settings, settings_of, version_of};
use crate::text::{append_str, copy_str, lines_of, views};

verus! {

/// A setting's value edited.
#[derive(Clone, Debug)]
pub enum GrblSettingMessage {
    TextChanged(String),
}

/// An edit of the controller tab.
#[derive(Clone, Debug)]
pub enum GrblMessage {
    SettingChanged(usize, GrblSettingMessage),
    SaveMessage(SaveBarMessage),
}

/// One setting: its name (such as `$100`) and its value as typed.
pub struct GrblSetting {
    pub text: String,
    pub input_value: String,
}

/// The mathematical value of the controller tab.
pub struct GrblTabView {
    pub unsaved: bool,
    pub settings: Seq<(Seq<char>, Seq<char>)>,
    pub version: Option<Seq<char>>,
    pub version_release_date: Option<Seq<char>>,
}

/// The controller tab's state.
pub struct GrblTab {
    pub unsaved: bool,
    pub settings: Vec<GrblSetting>,
    pub version: Option<String>,
    pub version_release_date: Option<String>,
}

/// The views of settings.
pub open spec fn setting_views(v: Seq<GrblSetting>) -> Seq<(Seq<char>, Seq<char>)> {
    v.map_values(|s: GrblSetting| (s.text@, s.input_value@))
}

/// The view of an optional text.
pub open spec fn opt_view(o: Option<String>) -> Option<Seq<char>> {
    match o {
        Some(s) => Some(s@),
        None => None,
    }
}

impl View for GrblTab {
    type V = GrblTabView;

    open spec fn view(&self) -> GrblTabView {
        GrblTabView {
            unsaved: self.unsaved,
            settings: setting_views(self.settings@),
            version: opt_view(self.version),
            version_release_date: opt_view(self.version_release_date),
        }
    }
}

/// The command that sets a setting: `name=value`.
pub open spec fn setting_command(s: (Seq<char>, Seq<char>)) -> Seq<char> {
    s.0 + seq!['='] + s.1
}

/// The controller tab `t` after message `m`, and the commands to send.
/// Saving sends every setting; cancelling asks for the settings again
/// (`$$`), whose reply `load_settings` takes.
pub open spec fn grbl_tab_after(t: GrblTabView, m: GrblMessage) -> (GrblTabView, Seq<Seq<char>>) {
    match m {
        GrblMessage::SettingChanged(i, GrblSettingMessage::TextChanged(v)) => (
            GrblTabView {
                unsaved: true,
                settings: t.settings.update(i as int, (t.settings[i as int].0, v@)),
                ..t
            },
            Seq::empty(),
        ),
        GrblMessage::SaveMessage(SaveBarMessage::Save) => (
            GrblTabView { unsaved: false, ..t },
            t.settings.map_values(|s: (Seq<char>, Seq<char>)| setting_command(s)),
        ),
        GrblMessage::SaveMessage(SaveBarMessage::Cancel) => (t, seq!["$$"@]),
    }
}

/// Whether message `m` names a setting the tab has.
pub open spec fn grbl_message_fits(t: GrblTabView, m: GrblMessage) -> bool {
    match m {
        GrblMessage::SettingChanged(i, _) => i < t.settings.len(),
        _ => true,
    }
}

impl GrblTab {
    /// The tab before the controller was asked anything.
    pub fn new() -> (r: GrblTab)
        ensures
            r@ == (GrblTabView {
                unsaved: false,
                settings: Seq::empty(),
                version: None,
                version_release_date: None,
            }),
    {
        let r = GrblTab {
            unsaved: false,
            settings: Vec::new(),
            version: None,
            version_release_date: None,
        };
        assert(r@.settings =~= Seq::<(Seq<char>, Seq<char>)>::empty());
        r
    }

    /// Takes the version and build date from the controller's reply to
    /// `$I`; where the reply has none, the one shown before stays.
    pub fn load_info(&mut self, info: &str)
        ensures
            final(self)@ == (GrblTabView {
                version: match version_of(info@) {
                    Some(v) => Some(v),
                    None => old(self)@.version,
                },
                version_release_date: match build_date_of(info@) {
                    Some(b) => Some(date_text(b)),
                    None => old(self)@.version_release_date,
                },
                ..old(self)@
            }),
    {
        let (v, d) = build_info(info);
        if v.is_some() {
            self.version = v;
        }
        if d.is_some() {
            self.version_release_date = d;
        }
    }

    /// Takes the settings from the controller's reply to `$$`; no change is
    /// left unsaved.
    pub fn load_settings(&mut self, listing: &str)
        ensures
            final(self)@ == (GrblTabView {
                unsaved: false,
                settings: settings_of(lines_of(listing@)),
                ..old(self)@
            }),
    {
        let kv = parse_settings(listing);
        let mut settings: Vec<GrblSetting> = Vec::new();
        for i in 0..kv.len()
            invariant
                settings@.len() == i,
                forall|k: int| 0 <= k < i ==> #[trigger] settings@[k].text@ == kv@[k].0@,
                forall|k: int| 0 <= k < i ==> #[trigger] settings@[k].input_value@ == kv@[k].1@,
        {
            settings.push(GrblSetting {
                text: copy_str(kv[i].0.as_str()),
                input_value: copy_str(kv[i].1.as_str()),
            });
        }
        assert(setting_views(settings@) =~= kv@.map_values(|p: (String, String)| (p.0@, p.1@)));
        self.settings = settings;
        self.unsaved = false;
    }

    /// Applies message `m`, as `grbl_tab_after` says, and gives the
    /// commands to send.
    pub fn update(&mut self, m: GrblMessage) -> (r: Vec<String>)
        requires
            grbl_message_fits(old(self)@, m),
        ensures
            (final(self)@, views(r@)) == grbl_tab_after(old(self)@, m),
    {
        let ghost t = self@;
        match m {
            GrblMessage::SettingChanged(i, GrblSettingMessage::TextChanged(v)) => {
                let ghost vv = v@;
                let s = GrblSetting { text: copy_str(self.settings[i].text.as_str()), input_value: v };
                self.settings.set(i, s);
                self.unsaved = true;
                assert(self@.settings =~= t.settings.update(i as int, (t.settings[i as int].0, vv)));
                let r: Vec<String> = Vec::new();
                assert(views(r@) =~= Seq::<Seq<char>>::empty());
                r
            },
            GrblMessage::SaveMessage(SaveBarMessage::Save) => {
                let mut r: Vec<String> = Vec::new();
                for i in 0..self.settings.len()
                    invariant
                        r@.len() == i,
                        forall|k: int|
                            0 <= k < i ==> #[trigger] r@[k]@ == setting_command(
                                setting_views(self.settings@)[k],
                            ),
                {
                    let mut c = copy_str(self.settings[i].text.as_str());
                    append_str(&mut c, "=");
                    append_str(&mut c, self.settings[i].input_value.as_str());
                    proof {
                        reveal_strlit("=");
                    }
                    assert(c@ =~= setting_command(setting_views(self.settings@)[i as int]));
                    r.push(c);
                }
                self.unsaved = false;
                assert(views(r@) =~= t.settings.map_values(
                    |s: (Seq<char>, Seq<char>)| setting_command(s),
                ));
                r
            },
            GrblMessage::SaveMessage(SaveBarMessage::Cancel) => {
                let mut r: Vec<String> = Vec::new();
                r.push(copy_str("$$"));
                assert(views(r@) =~= seq!["$$"@]);
                r
            },
        }
    }

    /// The version line of the tab.
    pub fn version_line(&self) -> (r: String)
        ensures
            r@ == "Version: "@ + match self.version {
                Some(v) => v@,
                None => "** Unavailable **"@,
            },
    {
        let mut r = copy_str("Version: ");
        match &self.version {
            Some(v) => append_str(&mut r, v.as_str()),
            None => append_str(&mut r, "** Unavailable **"),
        }
        r
    }
}

} // verus!
