//! Manual control: the commands typed into the terminal, what the terminal
//! answers without sending them, and the status line above the controls.
use vstd::prelude::*;
use crate::grbl::{Status, StatusView};
use crate::text::{
    append_str, contains_seq, contains_str, copy_str, format_milli_fixed3, milli_fixed3,
    remove_all, remove_all_str, str_eq,
};

verus! {

/// The upper-case form of a text as `str::to_uppercase` gives it.
pub uninterp spec fn uppercase(s: Seq<char>) -> Seq<char>;

/// The upper-case form of `s` (`str::to_uppercase`): a function of the
/// text alone, named `uppercase`.
#[verifier::external_body]
fn to_uppercase(s: &str) -> (r: String)
    ensures
        r@ == uppercase(s@),
{
    s.to_uppercase()
}

/// A typed command as it is examined and sent: without line breaks and
/// spaces, in upper case.
pub open spec fn cleaned_input(raw: Seq<char>) -> Seq<char> {
    uppercase(remove_all(remove_all(raw, seq!['\n']), seq![' ']))
}

/// Cleans a typed command as `cleaned_input` says.
pub fn clean_terminal_input(raw: &str) -> (r: String)
    ensures
        r@ == cleaned_input(raw@),
{
    proof {
        reveal_strlit("\n");
        reveal_strlit(" ");
    }
    assert("\n"@ =~= seq!['\n']);
    assert(" "@ =~= seq![' ']);
    let a = remove_all_str(raw, "\n");
    let b = remove_all_str(a.as_str(), " ");
    to_uppercase(b.as_str())
}

/// What the terminal does with a cleaned command.
#[derive(Clone, Copy, Debug, PartialEq, Eq, Structural)]
pub enum TerminalInput {
    /// A status query (`?`): the status is shown above the controls.
    StatusQuery,
    /// A command that stops or changes the controller's program or mode
    /// (`M`, `P`, `C`, `N`, or `$G`), which this application does not allow.
    Unsupported,
    /// A settings command (`$$` or `$I`), which the advanced tab handles.
    Settings,
    /// Any other command: sent to the controller.
    Send,
}

/// The kind of a cleaned command.
pub open spec fn input_kind(v: Seq<char>) -> TerminalInput {
    if v.contains('?') {
        TerminalInput::StatusQuery
    } else if v.contains('M') || v.contains('P') || v.contains('C') || v.contains('N') || v
        == "$G"@ {
        TerminalInput::Unsupported
    } else if v == "$$"@ || v == "$I"@ {
        TerminalInput::Settings
    } else {
        TerminalInput::Send
    }
}

/// Whether `c` occurs in `s`.
fn has_char(s: &str, c: char) -> (r: bool)
    ensures
        r == s@.contains(c),
{
    let cs = crate::text::chars_of(s);
    for i in 0..cs.len()
        invariant
            cs@ == s@,
            forall|k: int| 0 <= k < i ==> cs@[k] != c,
    {
        if cs[i] == c {
            assert(s@[i as int] == c);
            return true;
        }
    }
    false
}

/// Sorts a cleaned command as `input_kind` says.
pub fn classify_terminal_input(v: &str) -> (r: TerminalInput)
    ensures
        r == input_kind(v@),
{
    if has_char(v, '?') {
        TerminalInput::StatusQuery
    } else if has_char(v, 'M') || has_char(v, 'P') || has_char(v, 'C') || has_char(v, 'N')
        || str_eq(v, "$G") {
        TerminalInput::Unsupported
    } else if str_eq(v, "$$") || str_eq(v, "$I") {
        TerminalInput::Settings
    } else {
        TerminalInput::Send
    }
}

/// The terminal's answer, stamped `stamp`, to a command of kind `kind`
/// that it does not send.
pub open spec fn terminal_reply_of(stamp: Seq<char>, v: Seq<char>, kind: TerminalInput) -> Option<Seq<char>> {
    match kind {
        TerminalInput::StatusQuery => Some(
            stamp + "| => '?' Status command not available. Look at GUI above ;)"@,
        ),
        TerminalInput::Unsupported => Some(
            stamp + "| '"@ + v + "' => Command not supported by Bathtub."@,
        ),
        TerminalInput::Settings => Some(
            stamp + "| '"@ + v
                + "' => View and edit settings withing Bathtub! Advanced Tab => Grbl ;)"@,
        ),
        TerminalInput::Send => None,
    }
}

/// The answer the terminal shows for the cleaned command `v` instead of
/// sending it; `None` where the command is sent.
pub fn terminal_reply(stamp: &str, v: &str) -> (r: Option<String>)
    ensures
        r matches Some(t) ==> terminal_reply_of(stamp@, v@, input_kind(v@)) == Some(t@),
        r is None ==> terminal_reply_of(stamp@, v@, input_kind(v@)) is None,
{
    let kind = classify_terminal_input(v);
    match kind {
        TerminalInput::StatusQuery => {
            let mut r = copy_str(stamp);
            append_str(&mut r, "| => '?' Status command not available. Look at GUI above ;)");
            Some(r)
        },
        TerminalInput::Unsupported => {
            let mut r = copy_str(stamp);
            append_str(&mut r, "| '");
            append_str(&mut r, v);
            append_str(&mut r, "' => Command not supported by Bathtub.");
            Some(r)
        },
        TerminalInput::Settings => {
            let mut r = copy_str(stamp);
            append_str(&mut r, "| '");
            append_str(&mut r, v);
            append_str(&mut r, "' => View and edit settings withing Bathtub! Advanced Tab => Grbl ;)");
            Some(r)
        },
        TerminalInput::Send => None,
    }
}

/// The terminal's line for a command the controller answered.
pub fn response_line(stamp: &str, command: &str, result: &str) -> (r: String)
    ensures
        r@ == stamp@ + "| '"@ + command@ + "' => "@ + result@,
{
    let mut r = copy_str(stamp);
    append_str(&mut r, "| '");
    append_str(&mut r, command);
    append_str(&mut r, "' => ");
    append_str(&mut r, result);
    r
}

/// The status line: the controller's state and its position in
/// centimetres with three decimals.
pub open spec fn status_line(s: StatusView) -> Seq<char> {
    s.status + " state at\n("@ + milli_fixed3(s.x) + ", "@ + milli_fixed3(s.y) + ", "@
        + milli_fixed3(s.z) + ")"@
}

/// The text shown above the manual controls for a status report.
pub fn status_text(s: &Status) -> (r: String)
    ensures
        r@ == status_line(s@),
{
    let mut r = copy_str(s.status.as_str());
    append_str(&mut r, " state at\n(");
    append_str(&mut r, format_milli_fixed3(s.x).as_str());
    append_str(&mut r, ", ");
    append_str(&mut r, format_milli_fixed3(s.y).as_str());
    append_str(&mut r, ", ");
    append_str(&mut r, format_milli_fixed3(s.z).as_str());
    append_str(&mut r, ")");
    r
}

/// The status line before the controller has reported.
pub fn initial_status() -> (r: String)
    ensures
        r@ == "Click any button\nto start homing cycle"@,
{
    copy_str("Click any button\nto start homing cycle")
}

} // verus!
