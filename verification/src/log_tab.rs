//! The log list of the advanced tab: log files ordered newest first by the
//! date their names start with, the search bars, which search results are
//! kept, and opening a log with or without its G-code lines.
use vstd::prelude::*;
use crate::logger::{lowercase, text_without_gcode, hide_gcode_lines, to_lowercase, LOG_MAX};
use crate::text::{append_str, copy_str, decimal_digits, format_u64, lines_of, str_eq, views};
use crate::nodes::{first_index, lemma_first_index};

verus! {

/// A search bar's text changed.
#[derive(Clone, Debug)]
pub enum SearchBarMessage {
    InputChanged(String),
}

/// A log entry opened or closed, or its G-code lines shown or hidden.
#[derive(Clone, Copy, Debug, PartialEq, Eq, Structural)]
pub enum LogMessage {
    ToggleView,
    ToggleGcode(bool),
}

/// The seconds since the epoch of an RFC 2822 date, as
/// `chrono::DateTime::parse_from_rfc2822` reads it; nothing where the text
/// is not such a date.
pub uninterp spec fn rfc2822_seconds(s: Seq<char>) -> Option<int>;

/// Reads an RFC 2822 date (`chrono::DateTime::parse_from_rfc2822`, then
/// `timestamp`): a function of the text alone, named `rfc2822_seconds`.
#[verifier::external_body]
fn parse_rfc2822(s: &str) -> (r: Option<i64>)
    ensures
        r matches Some(t) ==> rfc2822_seconds(s@) == Some(t as int),
        r is None ==> rfc2822_seconds(s@) is None,
{
    match chrono::DateTime::parse_from_rfc2822(s) {
        Ok(d) => Some(d.timestamp()),
        Err(_) => None,
    }
}

/// The number of leading `|` characters.
pub open spec fn bars_before(s: Seq<char>) -> nat
    decreases s.len(),
{
    if s.len() > 0 && s[0] == '|' {
        1 + bars_before(s.drop_first())
    } else {
        0
    }
}

/// The number of leading characters other than `|`.
pub open spec fn text_before_bar(s: Seq<char>) -> nat
    decreases s.len(),
{
    if s.len() > 0 && s[0] != '|' {
        1 + text_before_bar(s.drop_first())
    } else {
        0
    }
}

/// The date part of a log file's name: the first run of characters other
/// than `|`; nothing where there is none.
pub open spec fn date_part(name: Seq<char>) -> Option<Seq<char>> {
    let rest = name.skip(bars_before(name) as int);
    if rest.len() == 0 {
        None
    } else {
        Some(rest.take(text_before_bar(rest) as int))
    }
}

proof fn lemma_bars_before(s: Seq<char>, i: int)
    requires
        0 <= i <= s.len(),
        forall|k: int| 0 <= k < i ==> s[k] == '|',
        i == s.len() || s[i] != '|',
    ensures
        bars_before(s) == i,
    decreases i,
{
    if i > 0 {
        lemma_bars_before(s.drop_first(), i - 1);
    }
}

proof fn lemma_text_before_bar(s: Seq<char>, i: int)
    requires
        0 <= i <= s.len(),
        forall|k: int| 0 <= k < i ==> s[k] != '|',
        i == s.len() || s[i] == '|',
    ensures
        text_before_bar(s) == i,
    decreases i,
{
    if i > 0 {
        lemma_text_before_bar(s.drop_first(), i - 1);
    }
}

/// The date part of a log file's name, as `date_part` says.
pub fn date_prefix(name: &str) -> (r: Option<String>)
    ensures
        r matches Some(d) ==> date_part(name@) == Some(d@),
        r is None ==> date_part(name@) is None,
{
    let cs = crate::text::chars_of(name);
    let n = cs.len();
    let mut i: usize = 0;
    while i < n && cs[i] == '|'
        invariant
            cs@ == name@,
            n == cs@.len(),
            i <= n,
            forall|k: int| 0 <= k < i ==> cs@[k] == '|',
        decreases n - i,
    {
        i = i + 1;
    }
    proof {
        lemma_bars_before(name@, i as int);
    }
    if i == n {
        return None;
    }
    let mut j: usize = i;
    let mut d = String::new();
    while j < n && cs[j] != '|'
        invariant
            cs@ == name@,
            n == cs@.len(),
            i <= j <= n,
            forall|k: int| i <= k < j ==> cs@[k] != '|',
            d@ == name@.subrange(i as int, j as int),
        decreases n - j,
    {
        crate::text::push_char(&mut d, cs[j]);
        assert(d@ =~= name@.subrange(i as int, j + 1));
        j = j + 1;
    }
    proof {
        let rest = name@.skip(i as int);
        lemma_text_before_bar(rest, j - i);
        assert(rest.take(j - i) =~= d@);
    }
    Some(d)
}

/// When a log was started, in seconds, as its name says.
pub open spec fn log_seconds(name: Seq<char>) -> Option<int> {
    match date_part(name) {
        Some(d) => rfc2822_seconds(d),
        None => None,
    }
}

/// When the log named `name` was started, in seconds.
pub fn log_time(name: &str) -> (r: Option<i64>)
    ensures
        r matches Some(t) ==> log_seconds(name@) == Some(t as int),
        r is None ==> log_seconds(name@) is None,
{
    match date_prefix(name) {
        Some(d) => parse_rfc2822(d.as_str()),
        None => None,
    }
}

/// Where an entry of time `t` goes in a list ordered newest first: after
/// every entry not older than it.
pub open spec fn place(l: Seq<(Seq<char>, int)>, t: int) -> int {
    match first_index(l, |e: (Seq<char>, int)| e.1 < t) {
        Some(p) => p,
        None => l.len() as int,
    }
}

/// Named entries ordered newest first; entries of the same time keep their
/// order.
pub open spec fn newest_first(s: Seq<(Seq<char>, int)>) -> Seq<(Seq<char>, int)>
    decreases s.len(),
{
    if s.len() == 0 {
        s
    } else {
        let l = newest_first(s.drop_last());
        l.insert(place(l, s.last().1), s.last())
    }
}

/// Whether entries are ordered newest first.
pub open spec fn is_newest_first(l: Seq<(Seq<char>, int)>) -> bool {
    forall|a: int, b: int| 0 <= a < b < l.len() ==> l[a].1 >= l[b].1
}

proof fn lemma_place(l: Seq<(Seq<char>, int)>, t: int)
    requires
        is_newest_first(l),
    ensures
        0 <= place(l, t) <= l.len(),
        forall|a: int| 0 <= a < place(l, t) ==> l[a].1 >= t,
        forall|a: int| place(l, t) <= a < l.len() ==> l[a].1 < t,
{
    let p = |e: (Seq<char>, int)| e.1 < t;
    first_index_bounds(l, p);
    match first_index(l, p) {
        Some(q) => {
            assert forall|a: int| q <= a < l.len() implies l[a].1 < t by {
                assert(l[q].1 >= l[a].1 || a == q);
            }
        },
        None => {},
    }
}

proof fn first_index_bounds<A>(s: Seq<A>, p: spec_fn(A) -> bool)
    ensures
        first_index(s, p) matches Some(q) ==> 0 <= q < s.len() && p(s[q]) && forall|a: int|
            0 <= a < q ==> !p(#[trigger] s[a]),
        first_index(s, p) is None ==> forall|a: int| 0 <= a < s.len() ==> !p(#[trigger] s[a]),
    decreases s.len(),
{
    if s.len() > 0 {
        first_index_bounds(s.drop_first(), p);
        if !p(s[0]) {
            assert forall|a: int| 0 < a < s.len() implies s[a] == s.drop_first()[a - 1] by {}
        }
    }
}

/// The log list is ordered newest first.
pub proof fn lemma_newest_first_ordered(s: Seq<(Seq<char>, int)>)
    ensures
        is_newest_first(newest_first(s)),
        newest_first(s).len() == s.len(),
    decreases s.len(),
{
    if s.len() > 0 {
        let l = newest_first(s.drop_last());
        lemma_newest_first_ordered(s.drop_last());
        let t = s.last().1;
        lemma_place(l, t);
        let q = place(l, t);
        let r = l.insert(q, s.last());
        assert forall|a: int, b: int| 0 <= a < b < r.len() implies r[a].1 >= r[b].1 by {
            if b < q {
            } else if b == q {
            } else if a < q {
                assert(r[b] == l[b - 1]);
            } else if a == q {
                assert(r[b] == l[b - 1]);
            } else {
                assert(r[a] == l[a - 1] && r[b] == l[b - 1]);
            }
        }
    }
}

/// The views of named entries.
pub open spec fn entry_seq(v: Seq<(String, i64)>) -> Seq<(Seq<char>, int)> {
    v.map_values(|e: (String, i64)| (e.0@, e.1 as int))
}

/// The log names to show: ordered newest first, at most `LOG_MAX` of them.
pub open spec fn shown_logs(s: Seq<(Seq<char>, int)>) -> Seq<Seq<char>> {
    let l = newest_first(s);
    l.take(if l.len() <= 100 { l.len() as int } else { 100 }).map_values(|e: (Seq<char>, int)| e.0)
}

/// Orders log names by the times they were started, newest first, keeping
/// the given order among logs of the same time, and keeps the first
/// `LOG_MAX`.
pub fn order_logs(logs: Vec<(String, i64)>) -> (r: Vec<String>)
    ensures
        views(r@) == shown_logs(entry_seq(logs@)),
{
    let ghost s = entry_seq(logs@);
    let mut l: Vec<(String, i64)> = Vec::new();
    let mut i: usize = 0;
    let n = logs.len();
    while i < n
        invariant
            s == entry_seq(logs@),
            n == logs@.len(),
            i <= n,
            entry_seq(l@) == newest_first(s.take(i as int)),
        decreases n - i,
    {
        let t = logs[i].1;
        let ghost lv = entry_seq(l@);
        proof {
            assert(s.take(i + 1).drop_last() =~= s.take(i as int));
            lemma_newest_first_ordered(s.take(i as int));
            lemma_place(lv, t as int);
        }
        let mut p: usize = 0;
        while p < l.len() && l[p].1 >= t
            invariant
                lv == entry_seq(l@),
                p <= l@.len(),
                forall|a: int| 0 <= a < p ==> #[trigger] l@[a].1 >= t,
            decreases l@.len() - p,
        {
            p = p + 1;
        }
        proof {
            assert(p == place(lv, t as int)) by {
                if p < place(lv, t as int) {
                    assert(lv[p as int].1 >= t);
                } else if p > place(lv, t as int) {
                    assert(lv[place(lv, t as int)].1 < t);
                }
            }
        }
        let e = (copy_str(logs[i].0.as_str()), t);
        l.insert(p, e);
        assert(entry_seq(l@) =~= lv.insert(p as int, (logs@[i as int].0@, t as int)));
        assert(s.take(i + 1).last() == (logs@[i as int].0@, t as int));
        i = i + 1;
    }
    assert(s.take(n as int) =~= s);
    let ghost full = entry_seq(l@);
    let keep = if l.len() <= LOG_MAX { l.len() } else { LOG_MAX };
    let mut r: Vec<String> = Vec::new();
    for k in 0..keep
        invariant
            full == entry_seq(l@),
            keep <= l@.len(),
            r@.len() == k,
            forall|j: int| 0 <= j < k ==> #[trigger] r@[j]@ == full[j].0,
    {
        r.push(copy_str(l[k].0.as_str()));
    }
    assert(views(r@) =~= full.take(keep as int).map_values(|e: (Seq<char>, int)| e.0));
    r
}

/// The time a log was started as its name says (0 where it does not say).
pub open spec fn seconds_of(name: Seq<char>) -> int {
    match log_seconds(name) {
        Some(t) => t,
        None => 0,
    }
}

/// Log names paired with the times they were started.
pub open spec fn dated_logs(names: Seq<Seq<char>>) -> Seq<(Seq<char>, int)> {
    names.map_values(|n: Seq<char>| (n, seconds_of(n)))
}

/// Whether every name starts with a date.
pub open spec fn all_dated(names: Seq<Seq<char>>) -> bool {
    forall|k: int| 0 <= k < names.len() ==> (#[trigger] log_seconds(names[k])) is Some
}

/// Orders log file names, each starting with a date, newest first by those
/// dates and keeps the first `LOG_MAX`.
pub fn sort_log_names(names: &Vec<String>) -> (r: Vec<String>)
    requires
        all_dated(views(names@)),
    ensures
        views(r@) == shown_logs(dated_logs(views(names@))),
{
    let mut logs: Vec<(String, i64)> = Vec::new();
    for i in 0..names.len()
        invariant
            all_dated(views(names@)),
            logs@.len() == i,
            forall|k: int| 0 <= k < i ==> #[trigger] logs@[k].0@ == names@[k]@,
            forall|k: int| 0 <= k < i ==> log_seconds(names@[k]@) == Some(#[trigger] logs@[k].1 as int),
    {
        assert(log_seconds(views(names@)[i as int]) is Some);
        match log_time(names[i].as_str()) {
            Some(t) => {
                logs.push((copy_str(names[i].as_str()), t));
            },
            None => {
                proof {
                    assert(false);
                }
                logs.push((copy_str(names[i].as_str()), 0));
            },
        }
    }
    assert(entry_seq(logs@) =~= dated_logs(views(names@)));
    order_logs(logs)
}

/// Orders log file names newest first as `sort_log_names` does, where
/// every name starts with a date; nothing where one does not.
pub fn try_sort_log_names(names: &Vec<String>) -> (r: Option<Vec<String>>)
    ensures
        r matches Some(v) ==> views(v@) == shown_logs(dated_logs(views(names@))),
        r is None <==> !all_dated(views(names@)),
{
    for i in 0..names.len()
        invariant
            forall|k: int| 0 <= k < i ==> (#[trigger] log_seconds(views(names@)[k])) is Some,
    {
        if log_time(names[i].as_str()).is_none() {
            assert(log_seconds(views(names@)[i as int]) is None);
            return None;
        }
    }
    Some(sort_log_names(names))
}

/// The title of search bar `num`.
pub fn search_bar_title(num: usize) -> (r: String)
    ensures
        r@ == (if num == 0 { "Contains:"@ } else { "and:"@ }),
{
    if num == 0 {
        copy_str("Contains:")
    } else {
        copy_str("and:")
    }
}

/// The hint shown in search bar `num`.
pub open spec fn search_hint(num: nat) -> Seq<char> {
    if num == 0 {
        "Search"@
    } else {
        "Search term "@ + decimal_digits(num + 1) + " (Optional)"@
    }
}

/// The hint shown in search bar `num`.
pub fn search_bar_message(num: usize) -> (r: String)
    requires
        num < usize::MAX,
    ensures
        r@ == search_hint(num as nat),
{
    if num == 0 {
        copy_str("Search")
    } else {
        let mut r = copy_str("Search term ");
        append_str(&mut r, format_u64((num + 1) as u64).as_str());
        append_str(&mut r, " (Optional)");
        r
    }
}

/// What follows a change of a search bar.
#[derive(Clone, Copy, Debug, PartialEq, Eq, Structural)]
pub enum SearchStep {
    /// No term is left: the log list is read again, newest first.
    Reload,
    /// The logs are searched for the terms.
    Search,
}

/// The search bars' texts after bar `i` was changed to `val`, and what
/// follows. A bar is added below the last one when the last one is
/// changed; an emptied bar other than the first is removed; an emptied
/// first bar resets the bars.
pub open spec fn search_after(vs: Seq<Seq<char>>, i: int, val: Seq<char>) -> (Seq<Seq<char>>, SearchStep) {
    let v1 = vs.update(i, val);
    let v2 = if i == vs.len() - 1 {
        v1.push(Seq::empty())
    } else {
        v1
    };
    if val.len() == 0 && i == 0 {
        (seq![Seq::empty()], SearchStep::Reload)
    } else {
        let v3 = if val.len() == 0 {
            v2.remove(i)
        } else {
            v2
        };
        if v3.len() == 1 && v3[0].len() == 0 {
            (seq![Seq::empty()], SearchStep::Reload)
        } else {
            (v3, SearchStep::Search)
        }
    }
}

/// Applies a change of search bar `i` to the bars' texts `values`, as
/// `search_after` says.
pub fn search_changed(values: &mut Vec<String>, i: usize, val: String) -> (r: SearchStep)
    requires
        i < old(values)@.len(),
    ensures
        (views(final(values)@), r) == search_after(views(old(values)@), i as int, val@),
{
    let ghost vs = views(values@);
    proof {
        reveal_strlit("");
        assert(""@ =~= Seq::<char>::empty());
    }
    assert(val@.len() == 0 ==> val@ =~= Seq::<char>::empty());
    let empty = str_eq(val.as_str(), "");
    assert(empty == (val@.len() == 0));
    values.set(i, val);
    if i == values.len() - 1 {
        values.push(String::new());
    }
    let ghost v2 = views(values@);
    assert(v2 =~= {
        let v1 = vs.update(i as int, val@);
        if i == vs.len() - 1 {
            v1.push(Seq::empty())
        } else {
            v1
        }
    });
    if empty && i == 0 {
        *values = Vec::new();
        values.push(String::new());
        assert(views(values@) =~= seq![Seq::<char>::empty()]);
        return SearchStep::Reload;
    }
    if empty {
        values.remove(i);
        assert(views(values@) =~= v2.remove(i as int));
    }
    let ghost v3 = views(values@);
    assert(v3 == (if empty { v2.remove(i as int) } else { v2 }));
    assert(values@.len() > 0 ==> (values@[0]@.len() == 0 ==> values@[0]@ =~= Seq::<char>::empty()));
    if values.len() == 1 && str_eq(values[0].as_str(), "") {
        assert(v3.len() == 1 && v3[0].len() == 0);
        *values = Vec::new();
        values.push(String::new());
        assert(views(values@) =~= seq![Seq::<char>::empty()]);
        SearchStep::Reload
    } else {
        assert(!(v3.len() == 1 && v3[0].len() == 0));
        SearchStep::Search
    }
}

/// Whether a search result is kept: the list is not full and the result
/// was searched for the terms the bars hold now, lower-cased as the search
/// lower-cases them (compared as far as both go).
pub fn keeps_result(n_logs: usize, terms: &Vec<String>, bars: &Vec<String>) -> (r: bool)
    ensures
        r == (n_logs <= LOG_MAX && forall|k: int|
            0 <= k < terms@.len() && k < bars@.len() ==> #[trigger] terms@[k]@ == lowercase(bars@[k]@)),
{
    if n_logs > LOG_MAX {
        return false;
    }
    let mut k: usize = 0;
    while k < terms.len() && k < bars.len()
        invariant
            k <= terms@.len(),
            forall|j: int| 0 <= j < k && j < bars@.len() ==> #[trigger] terms@[j]@ == lowercase(bars@[j]@),
        decreases terms@.len() - k,
    {
        let bar = to_lowercase(bars[k].as_str());
        if !str_eq(terms[k].as_str(), bar.as_str()) {
            return false;
        }
        k = k + 1;
    }
    true
}

/// The mathematical value of a log entry.
pub struct LogView {
    pub title: Seq<char>,
    pub content: Seq<char>,
    pub opened: bool,
    pub hide_gcode: bool,
}

/// A log in the list: its file name, the text shown when it is open, and
/// whether G-code lines are hidden.
pub struct Log {
    pub title: String,
    pub content: String,
    pub opened: bool,
    pub hide_gcode: bool,
}

impl View for Log {
    type V = LogView;

    open spec fn view(&self) -> LogView {
        LogView {
            title: self.title@,
            content: self.content@,
            opened: self.opened,
            hide_gcode: self.hide_gcode,
        }
    }
}

/// The text shown for a log with its G-code lines hidden: the file's
/// lines without them, or the message that the file could not be read.
pub open spec fn filtered_text(title: Seq<char>, file: Option<Seq<char>>) -> Seq<char> {
    text_without_gcode(
        lines_of(
            match file {
                Some(t) => t,
                None => "Error: Unable tp read file "@ + title + "!"@,
            },
        ),
    )
}

/// The text shown for a log with its G-code lines: the file's text, or
/// the message that the file could not be read.
pub open spec fn full_text(title: Seq<char>, file: Option<Seq<char>>) -> Seq<char> {
    match file {
        Some(t) => t,
        None => "Error: Unable to read file "@ + title + "!"@,
    }
}

/// The log entry `l` after message `m`, where `file` is the log file's
/// text as read now (nothing where it could not be read).
pub open spec fn log_after(l: LogView, m: LogMessage, file: Option<Seq<char>>) -> LogView {
    match m {
        LogMessage::ToggleView => if l.opened {
            LogView { opened: false, ..l }
        } else {
            LogView {
                content: if l.hide_gcode {
                    filtered_text(l.title, file)
                } else {
                    full_text(l.title, file)
                },
                opened: true,
                ..l
            }
        },
        LogMessage::ToggleGcode(b) => LogView {
            content: if !l.hide_gcode {
                filtered_text(l.title, file)
            } else {
                full_text(l.title, file)
            },
            hide_gcode: b,
            ..l
        },
    }
}

impl Log {
    /// A closed log entry for the file `title`, G-code lines hidden.
    pub fn new(title: String) -> (r: Log)
        ensures
            r@ == (LogView { title: title@, content: Seq::empty(), opened: false, hide_gcode: true }),
    {
        Log { title, content: String::new(), opened: false, hide_gcode: true }
    }

    /// Applies message `m`, as `log_after` says; `file` is the log file's
    /// text as read now.
    pub fn update(&mut self, m: LogMessage, file: Option<String>)
        ensures
            final(self)@ == log_after(old(self)@, m, match file {
                Some(t) => Some(t@),
                None => None,
            }),
    {
        let shows_filtered = match m {
            LogMessage::ToggleView => {
                if self.opened {
                    self.opened = false;
                    return;
                }
                self.hide_gcode
            },
            LogMessage::ToggleGcode(_) => !self.hide_gcode,
        };
        let text = if shows_filtered {
            let source = match file {
                Some(t) => t,
                None => {
                    let mut e = copy_str("Error: Unable tp read file ");
                    append_str(&mut e, self.title.as_str());
                    append_str(&mut e, "!");
                    e
                },
            };
            hide_gcode_lines(source.as_str())
        } else {
            match file {
                Some(t) => t,
                None => {
                    let mut e = copy_str("Error: Unable to read file ");
                    append_str(&mut e, self.title.as_str());
                    append_str(&mut e, "!");
                    e
                },
            }
        };
        self.content = text;
        match m {
            LogMessage::ToggleView => {
                self.opened = true;
            },
            LogMessage::ToggleGcode(b) => {
                self.hide_gcode = b;
            },
        }
    }
}

/// Changing a search bar always leaves at least one bar, and the first bar
/// stays first.
pub proof fn lemma_search_keeps_a_bar(vs: Seq<Seq<char>>, i: int, val: Seq<char>)
    requires
        0 <= i < vs.len(),
    ensures
        search_after(vs, i, val).0.len() >= 1,
{
}

} // verus!
