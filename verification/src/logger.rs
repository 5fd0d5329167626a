//! Logging: the handle that hands lines to the logging thread, what that
//! thread does with each line it receives, the header of a new log file,
//! the file-name clean-up for the platform, and searching and filtering
//! log contents.
use vstd::prelude::*;
use std::sync::mpsc::Sender;
use crate::text::{
    append_str, chars_of, concat, contains_seq, contains_str, copy_str, ends_with_seq, ends_with_str,
    lines_of, push_char, remove_all, remove_all_str, split_lines, string_of, views,
};

verus! {

#[verifier::external_type_specification]
#[verifier::external_body]
#[verifier::reject_recursive_types(T)]
pub struct ExSender<T>(Sender<T>);

/// `Sender::clone`: another sender to the same receiving end. Nothing is
/// stated of the result; a sender is opaque here.
pub assume_specification<T>[ <Sender<T> as Clone>::clone ](s: &Sender<T>) -> Sender<T>;

/// The directory that holds the log files.
pub const LOGS: &'static str = "./logs";

/// The most log files the log list shows.
pub const LOG_MAX: usize = 100;

/// Hands `line` to the receiving end of the channel (`Sender::send`). The
/// call fails exactly when the receiving end is gone, which depends on the
/// other thread, so whether it succeeds is not stated; where it fails, the
/// `SendError` it gives carries the line that was not sent, which is
/// handed back. What the receiver does with a line is outside this call.
#[verifier::external_body]
fn send_text(sender: &Sender<String>, line: String) -> (r: Result<(), String>)
    ensures
        r matches Err(l) ==> l@ == line@,
{
    match sender.send(line) {
        Ok(()) => Ok(()),
        Err(e) => Err(e.0),
    }
}

/// The main separator of paths on this platform (`std::path::MAIN_SEPARATOR`):
/// `\` on Windows and `/` on Unix. Nothing is stated of it: it depends on
/// the platform the library was built for.
#[verifier::external_body]
fn main_separator() -> (c: char) {
    std::path::MAIN_SEPARATOR
}

/// Whether the library runs on Windows (whose paths separate with `\`).
pub fn on_windows() -> (r: bool) {
    main_separator() == '\\'
}

/// The characters that Windows does not allow in file names.
pub open spec fn windows_forbidden(c: char) -> bool {
    c == '<' || c == '>' || c == ':' || c == '"' || c == '/' || c == '\\' || c == '|' || c == '?'
        || c == '*'
}

/// `s` with every character Windows forbids in file names made `_`.
pub open spec fn windows_clean(s: Seq<char>) -> Seq<char> {
    s.map_values(|c: char| if windows_forbidden(c) { '_' } else { c })
}

/// The platform clean-up of a file name: on Windows every forbidden
/// character becomes `_`; elsewhere the name is kept as it is.
pub open spec fn os_clean(windows: bool, s: Seq<char>) -> Seq<char> {
    if windows {
        windows_clean(s)
    } else {
        s
    }
}

/// Cleans up `s` for use as a file name on the given platform.
pub fn replace_os_char_on(windows: bool, s: String) -> (r: String)
    ensures
        r@ == os_clean(windows, s@),
{
    if !windows {
        return s;
    }
    let x = chars_of(s.as_str());
    let mut out = String::new();
    for i in 0..x.len()
        invariant
            x@ == s@,
            out@ == windows_clean(s@.take(i as int)),
    {
        let c = x[i];
        let d = if c == '<' || c == '>' || c == ':' || c == '"' || c == '/' || c == '\\' || c == '|'
            || c == '?' || c == '*' {
            '_'
        } else {
            c
        };
        push_char(&mut out, d);
        assert(windows_clean(s@.take(i + 1)) =~= windows_clean(s@.take(i as int)).push(d));
    }
    assert(s@.take(x.len() as int) =~= s@);
    out
}

/// Cleans up `s` for use as a file name on the platform the library runs
/// on: on Windows the characters it forbids become `_`, elsewhere the name
/// is kept.
pub fn replace_os_char(s: String) -> (r: String)
    ensures
        r@ == os_clean(true, s@) || r@ == os_clean(false, s@),
{
    let windows = on_windows();
    replace_os_char_on(windows, s)
}

/// The marker that ends a message naming the log file to write to.
pub open spec fn set_file_marker() -> Seq<char> {
    seq!['\n', '\r', 's', 'e', 't', '_', 'l', 'o', 'g', '_', 'f', 'i', 'l', 'e']
}

fn marker() -> (r: &'static str)
    ensures
        r@ == set_file_marker(),
{
    proof {
        reveal_strlit("\n\rset_log_file");
    }
    let r = "\n\rset_log_file";
    assert(r@ =~= set_file_marker());
    r
}

/// The message that makes the logging thread write to the file `file_name`
/// from then on.
pub fn set_log_file_message(file_name: &str) -> (r: String)
    ensures
        r@ == file_name@ + set_file_marker(),
{
    concat(file_name, marker())
}

/// The path of the log file named `file_name`.
pub open spec fn log_path_of(file_name: Seq<char>) -> Seq<char> {
    seq!['.', '/', 'l', 'o', 'g', 's', '/'] + file_name
}

/// The path of the log file named `file_name` (`"{LOGS}/{file_name}"`).
pub fn log_path(file_name: &str) -> (r: String)
    ensures
        r@ == log_path_of(file_name@),
{
    proof {
        reveal_strlit("./logs/");
    }
    let prefix = "./logs/";
    assert(prefix@ =~= seq!['.', '/', 'l', 'o', 'g', 's', '/']);
    concat(prefix, file_name)
}

/// The first lines of a new log file: its name, the operating system user
/// that created it, and a rule.
pub open spec fn log_header_of(file_name: Seq<char>, user: Seq<char>) -> Seq<Seq<char>> {
    seq![
        file_name,
        "Created by Operating System User: "@ + user,
        "--------------------"@,
    ]
}

/// The first lines of a new log file named `file_name`; `username` is the
/// operating system user where it is known.
pub fn log_header(file_name: &str, username: Option<String>) -> (r: Vec<String>)
    ensures
        views(r@) == log_header_of(
            file_name@,
            match username {
                Some(u) => u@,
                None => "**Unavailable**"@,
            },
        ),
{
    let user = match username {
        Some(u) => u,
        None => copy_str("**Unavailable**"),
    };
    let v = vec![
        copy_str(file_name),
        concat("Created by Operating System User: ", user.as_str()),
        copy_str("--------------------"),
    ];
    assert(views(v@) =~= log_header_of(
        file_name@,
        match username {
            Some(u) => u@,
            None => "**Unavailable**"@,
        },
    ));
    v
}


/// What the logging thread does with one received message.
pub enum LogStep {
    /// Write from now on to the file of this name.
    SetFile(String),
    /// Append `lines` to the file at `path`, creating the file where it
    /// does not exist yet.
    Append { path: String, lines: Vec<String> },
}

/// The mathematical value of a logging step.
pub enum LogStepView {
    SetFile(Seq<char>),
    Append(Seq<char>, Seq<Seq<char>>),
}

impl View for LogStep {
    type V = LogStepView;

    open spec fn view(&self) -> LogStepView {
        match self {
            LogStep::SetFile(f) => LogStepView::SetFile(f@),
            LogStep::Append { path, lines } => LogStepView::Append(path@, views(lines@)),
        }
    }
}

/// The user named in a new log file's header: the operating system user
/// where it is known.
pub open spec fn user_text(username: Option<Seq<char>>) -> Seq<char> {
    match username {
        Some(u) => u,
        None => "**Unavailable**"@,
    }
}

/// The step of the logging thread for a received message, with the current
/// log file name `file_name`: the message is first cleaned up for the
/// platform; a message that then ends with the set-file marker names the
/// new log file (every marker taken out); any other message is a line for
/// the current file, written after the file's header (naming `user`)
/// where the file does not exist yet.
pub open spec fn step_of(windows: bool, file_name: Seq<char>, message: Seq<char>, exists: bool, user: Seq<char>) -> LogStepView {
    let m = os_clean(windows, message);
    if ends_with_seq(m, set_file_marker()) {
        LogStepView::SetFile(remove_all(m, set_file_marker()))
    } else {
        LogStepView::Append(
            log_path_of(file_name),
            if exists {
                seq![m]
            } else {
                log_header_of(file_name, user).push(m)
            },
        )
    }
}

/// The step of the logging thread for `message`, as `step_of` says;
/// `exists` tells whether the current log file exists, and `username` is
/// the operating system user where it is known.
pub fn log_step(windows: bool, file_name: &str, message: String, exists: bool, username: Option<String>) -> (r: LogStep)
    ensures
        r@ == step_of(
            windows,
            file_name@,
            message@,
            exists,
            user_text(
                match username {
                    Some(u) => Some(u@),
                    None => None,
                },
            ),
        ),
{
    let m = replace_os_char_on(windows, message);
    if ends_with_str(m.as_str(), marker()) {
        LogStep::SetFile(remove_all_str(m.as_str(), marker()))
    } else {
        let path = log_path(file_name);
        let mut lines: Vec<String> = if exists {
            Vec::new()
        } else {
            log_header(file_name, username)
        };
        let ghost before = lines@;
        lines.push(m);
        proof {
            crate::text::lemma_views_push(before, lines@.last());
            assert(lines@ =~= before.push(lines@.last()));
            if exists {
                assert(views(before) =~= Seq::<Seq<char>>::empty());
            }
        }
        LogStep::Append { path, lines }
    }
}

/// The log files the logging thread has written, and the name of the file
/// it writes to.
pub struct LogDisk {
    pub file: Seq<char>,
    pub files: Map<Seq<char>, Seq<Seq<char>>>,
}

/// The log files after the logging thread takes `message`: it performs the
/// step `step_of` gives for the current file, which exists where the disk
/// holds it.
pub open spec fn log_effect(windows: bool, user: Seq<char>, d: LogDisk, message: Seq<char>) -> LogDisk {
    let path = log_path_of(d.file);
    match step_of(windows, d.file, message, d.files.contains_key(path), user) {
        LogStepView::SetFile(f) => LogDisk { file: f, files: d.files },
        LogStepView::Append(p, lines) => LogDisk {
            file: d.file,
            files: d.files.insert(
                p,
                if d.files.contains_key(p) {
                    d.files[p] + lines
                } else {
                    lines
                },
            ),
        },
    }
}

/// The log files after the logging thread takes the messages `ms` in order.
pub open spec fn log_effects(windows: bool, user: Seq<char>, d: LogDisk, ms: Seq<Seq<char>>) -> LogDisk
    decreases ms.len(),
{
    if ms.len() == 0 {
        d
    } else {
        log_effect(windows, user, log_effects(windows, user, d, ms.drop_last()), ms.last())
    }
}

proof fn lemma_clean_marker(windows: bool, f: Seq<char>)
    ensures
        os_clean(windows, f + set_file_marker()) == os_clean(windows, f) + set_file_marker(),
{
    if windows {
        let m = set_file_marker();
        assert(windows_clean(f + m) =~= windows_clean(f) + windows_clean(m));
        assert(windows_clean(m) =~= m);
    }
}

proof fn lemma_remove_marker(x: Seq<char>)
    requires
        !x.contains('\n'),
    ensures
        remove_all(x + set_file_marker(), set_file_marker()) == x,
    decreases x.len(),
{
    let m = set_file_marker();
    if x.len() == 0 {
        assert(x + m =~= m);
        assert(m.take(m.len() as int) =~= m);
        assert(m.skip(m.len() as int) =~= Seq::<char>::empty());
        assert(remove_all(Seq::<char>::empty(), m) == Seq::<char>::empty());
        assert(remove_all(m, m) == remove_all(m.skip(m.len() as int), m));
    } else {
        assert(x[0] != '\n') by {
            if x[0] == '\n' {
                assert(x.contains('\n'));
            }
        }
        assert((x + m)[0] == x[0]);
        assert((x + m).take(m.len() as int)[0] == x[0]);
        assert((x + m).take(m.len() as int) != m) by {
            assert(m[0] == '\n');
        }
        assert((x + m).skip(1) =~= x.skip(1) + m);
        assert forall|i: int| 0 <= i < x.skip(1).len() implies x.skip(1)[i] != '\n' by {
            assert(x.skip(1)[i] == x[i + 1]);
        }
        lemma_remove_marker(x.skip(1));
        assert(seq![x[0]] + x.skip(1) =~= x);
    }
}

proof fn lemma_clean_keeps_newline_free(windows: bool, f: Seq<char>)
    requires
        !f.contains('\n'),
    ensures
        !os_clean(windows, f).contains('\n'),
{
    if windows {
        assert forall|i: int| 0 <= i < windows_clean(f).len() implies windows_clean(f)[i] != '\n' by {
            assert(f[i] != '\n');
        }
    }
}

/// Every line sent is logged, in order: after the logging thread takes the
/// message that sets the log file `f` (a name without a newline) and then
/// the lines `ls`, none of which names a file, the file of the cleaned name
/// of `f` holds, where it did not exist before, its header and then every
/// line, cleaned, in order; the thread still writes to that file, and no
/// other file changes.
pub proof fn lemma_lines_logged(windows: bool, user: Seq<char>, d: LogDisk, f: Seq<char>, ls: Seq<Seq<char>>)
    requires
        !f.contains('\n'),
        !d.files.contains_key(log_path_of(os_clean(windows, f))),
        forall|k: int| 0 <= k < ls.len() ==> !ends_with_seq(os_clean(windows, #[trigger] ls[k]), set_file_marker()),
    ensures
        ({
            let g = os_clean(windows, f);
            let e = log_effects(windows, user, d, seq![f + set_file_marker()] + ls);
            &&& e.file == g
            &&& ls.len() > 0 ==> e.files == d.files.insert(
                log_path_of(g),
                log_header_of(g, user) + ls.map_values(|l: Seq<char>| os_clean(windows, l)),
            )
            &&& ls.len() == 0 ==> e.files == d.files
        }),
    decreases ls.len(),
{
    let g = os_clean(windows, f);
    let m = set_file_marker();
    let ms = seq![f + m] + ls;
    lemma_clean_marker(windows, f);
    lemma_clean_keeps_newline_free(windows, f);
    lemma_remove_marker(g);
    let c = g + m;
    assert(c.skip(c.len() - m.len()) =~= m);
    assert(remove_all(c, m) == g);
    assert(ends_with_seq(c, m));
    if ls.len() == 0 {
        assert(ms.drop_last() =~= Seq::<Seq<char>>::empty());
        assert(ms.last() == f + m);
        assert(log_effects(windows, user, d, ms.drop_last()) == d);
        assert(os_clean(windows, ms.last()) == c);
    } else {
        let lp = ls.drop_last();
        assert forall|k: int| 0 <= k < lp.len() implies !ends_with_seq(os_clean(windows, #[trigger] lp[k]), set_file_marker()) by {
            assert(lp[k] == ls[k]);
        }
        lemma_lines_logged(windows, user, d, f, lp);
        assert(ms.drop_last() =~= seq![f + m] + lp);
        assert(ms.last() == ls[ls.len() - 1]);
        let prev = log_effects(windows, user, d, seq![f + m] + lp);
        let path = log_path_of(g);
        let line = os_clean(windows, ls[ls.len() - 1]);
        let cleaned = ls.map_values(|l: Seq<char>| os_clean(windows, l));
        assert(cleaned =~= lp.map_values(|l: Seq<char>| os_clean(windows, l)).push(line));
        if lp.len() == 0 {
            assert(lp.map_values(|l: Seq<char>| os_clean(windows, l)) =~= Seq::<Seq<char>>::empty());
            assert(log_header_of(g, user) + cleaned =~= log_header_of(g, user).push(line));
        } else {
            assert(prev.files.contains_key(path));
            assert(prev.files[path] + seq![line] =~= log_header_of(g, user) + cleaned);
        }
        assert(log_effects(windows, user, d, ms).files =~= d.files.insert(path, log_header_of(g, user) + cleaned));
    }
}

/// The lower-case form of a text as `str::to_lowercase` gives it.
pub uninterp spec fn lowercase(s: Seq<char>) -> Seq<char>;

/// The lower-case form of `s` (`str::to_lowercase`): a function of the
/// text alone, named `lowercase`.
#[verifier::external_body]
pub(crate) fn to_lowercase(s: &str) -> (r: String)
    ensures
        r@ == lowercase(s@),
{
    s.to_lowercase()
}

/// The search terms as the log search uses them: lower-cased.
pub fn search_terms(values: &Vec<String>) -> (r: Vec<String>)
    ensures
        r@.len() == values@.len(),
        forall|i: int| 0 <= i < r@.len() ==> #[trigger] r@[i]@ == lowercase(values@[i]@),
{
    let mut r: Vec<String> = Vec::new();
    for i in 0..values.len()
        invariant
            r@.len() == i,
            forall|k: int| 0 <= k < i ==> #[trigger] r@[k]@ == lowercase(values@[k]@),
    {
        r.push(to_lowercase(values[i].as_str()));
    }
    r
}

/// Whether a log's contents match the search: every term occurs in the
/// lower-cased contents.
pub fn log_matches(terms: &Vec<String>, contents: &str) -> (r: bool)
    ensures
        r == forall|i: int| 0 <= i < terms@.len() ==> contains_seq(lowercase(contents@), #[trigger] terms@[i]@),
{
    let text = to_lowercase(contents);
    for i in 0..terms.len()
        invariant
            text@ == lowercase(contents@),
            forall|k: int| 0 <= k < i ==> contains_seq(lowercase(contents@), #[trigger] terms@[k]@),
    {
        if !contains_str(text.as_str(), terms[i].as_str()) {
            return false;
        }
    }
    true
}

/// The lines kept when G-code lines are hidden, each followed by a newline.
pub open spec fn text_without_gcode(ls: Seq<Seq<char>>) -> Seq<char>
    decreases ls.len(),
{
    if ls.len() == 0 {
        Seq::empty()
    } else {
        text_without_gcode(ls.drop_last()) + if contains_seq(ls.last(), "G-code"@) {
            Seq::empty()
        } else {
            ls.last().push('\n')
        }
    }
}

/// A log's contents with the lines that mention G-code left out; each kept
/// line ends with a newline.
pub fn hide_gcode_lines(contents: &str) -> (r: String)
    ensures
        r@ == text_without_gcode(lines_of(contents@)),
{
    let ls = split_lines(contents);
    let mut out = String::new();
    for i in 0..ls.len()
        invariant
            views(ls@) == lines_of(contents@),
            out@ == text_without_gcode(views(ls@).take(i as int)),
    {
        let ghost before = out@;
        proof {
            assert(views(ls@).take(i + 1).drop_last() =~= views(ls@).take(i as int));
            assert(views(ls@).take(i + 1).last() == ls@[i as int]@);
        }
        if !contains_str(ls[i].as_str(), "G-code") {
            append_str(&mut out, ls[i].as_str());
            push_char(&mut out, '\n');
            assert(out@ =~= before + ls@[i as int]@.push('\n'));
        } else {
            assert(before + Seq::<char>::empty() =~= before);
        }
    }
    assert(views(ls@).take(ls@.len() as int) =~= views(ls@));
    out
}

/// Hands lines to the logging thread, which writes them to the current log
/// file. It keeps, as a ghost record, the messages it has handed over.
#[derive(Clone)]
pub struct Logger {
    sender: Sender<String>,
    sent: Ghost<Seq<Seq<char>>>,
}

impl Logger {
    /// The sending end of the channel the logger hands its lines to.
    pub closed spec fn channel(&self) -> Sender<String> {
        self.sender
    }

    /// The messages this logger has handed to the logging thread, in order.
    pub closed spec fn sent(&self) -> Seq<Seq<char>> {
        self.sent@
    }

    /// A logger that hands its lines to `sender`; it has sent nothing yet.
    pub fn from_sender(sender: Sender<String>) -> (r: Logger)
        ensures
            r.channel() == sender,
            r.sent() == Seq::<Seq<char>>::empty(),
    {
        Logger { sender, sent: Ghost(Seq::empty()) }
    }

    /// Makes the logging thread write to the file `file_name` from now on,
    /// by handing it `file_name` followed by the set-file marker. Where the
    /// logging thread is gone nothing is sent and the message comes back as
    /// the error. The logger keeps its channel.
    pub fn set_log_file(&mut self, file_name: String) -> (r: Result<(), String>)
        ensures
            final(self).channel() == old(self).channel(),
            r is Ok ==> final(self).sent() == old(self).sent().push(file_name@ + set_file_marker()),
            r matches Err(m) ==> m@ == file_name@ + set_file_marker() && final(self).sent() == old(self).sent(),
    {
        let m = set_log_file_message(file_name.as_str());
        let ghost text = m@;
        let r = send_text(&self.sender, m);
        if r.is_ok() {
            self.sent = Ghost(self.sent@.push(text));
        }
        r
    }

    /// Hands `line` to the logging thread. Where the logging thread is gone
    /// nothing is sent and the line comes back as the error. The logger
    /// keeps its channel.
    pub fn send_line(&mut self, line: String) -> (r: Result<(), String>)
        ensures
            final(self).channel() == old(self).channel(),
            r is Ok ==> final(self).sent() == old(self).sent().push(line@),
            r matches Err(l) ==> l@ == line@ && final(self).sent() == old(self).sent(),
    {
        let ghost text = line@;
        let r = send_text(&self.sender, line);
        if r.is_ok() {
            self.sent = Ghost(self.sent@.push(text));
        }
        r
    }
}

} // verus!
