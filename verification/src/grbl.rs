//! The controller protocol: commands and their queue, the clean-up of a
//! controller reply, the controller's settings listing, its version and
//! build date, and the status report with the machine position.
use vstd::prelude::*;
use crate::text::{
    append_str, chars_of, concat, copy_str, decimal_value, digit_value, is_digit_char, lines_of,
    push_char, remove_all, remove_all_str, split_lines, str_eq, string_of, views,
};
use vstd::utf8::{
    decode_utf8, encode_utf8, is_ascii_chars, is_char_boundary, is_leading_byte_width_1, valid_utf8,
};

verus! {

/// The mathematical value of a command.
pub struct CommandView {
    pub response_time: Option<int>,
    pub command: Seq<char>,
    pub result: Option<Seq<char>>,
}

/// A command for the controller, with its reply once it has one.
#[derive(Debug, Clone)]
pub struct Command {
    /// When the reply came, in milliseconds since the Unix epoch.
    pub response_time: Option<i64>,
    pub command: String,
    pub result: Option<String>,
}

impl View for Command {
    type V = CommandView;

    open spec fn view(&self) -> CommandView {
        CommandView {
            response_time: match self.response_time {
                Some(t) => Some(t as int),
                None => None,
            },
            command: self.command@,
            result: match self.result {
                Some(r) => Some(r@),
                None => None,
            },
        }
    }
}

/// The views of a sequence of commands.
pub open spec fn command_views(v: Seq<Command>) -> Seq<CommandView> {
    v.map_values(|c: Command| c@)
}

/// The text of a command as it is sent: newlines and spaces taken out.
pub open spec fn command_text(s: Seq<char>) -> Seq<char> {
    remove_all(remove_all(s, seq!['\n']), seq![' '])
}

/// The jog-cancel real-time command, `0x85`.
pub open spec fn jog_cancel() -> Seq<char> {
    seq!['\u{85}']
}

impl Command {
    /// A command with no reply yet; newlines and spaces are taken out of
    /// its text.
    pub fn new(command: String) -> (r: Command)
        ensures
            r@.command == command_text(command@),
            r@.response_time is None,
            r@.result is None,
    {
        proof {
            reveal_strlit("\n");
            reveal_strlit(" ");
        }
        let a = remove_all_str(command.as_str(), "\n");
        assert("\n"@ =~= seq!['\n']);
        assert(" "@ =~= seq![' ']);
        let b = remove_all_str(a.as_str(), " ");
        Command { response_time: None, command: b, result: None }
    }
}

/// Queues a command for sending: the queue sends from its end, so a new
/// command goes to the front; the jog-cancel command first empties the queue.
pub fn queue_command(queue: &mut Vec<Command>, command: Command)
    ensures
        command_views(final(queue)@) == if command@.command == jog_cancel() {
            seq![command@]
        } else {
            seq![command@] + command_views(old(queue)@)
        },
{
    proof {
        reveal_strlit("\u{85}");
    }
    let cancel = str_eq(command.command.as_str(), "\u{85}");
    assert("\u{85}"@ =~= jog_cancel());
    if cancel {
        queue.clear();
    }
    let ghost before = queue@;
    queue.insert(0, command);
    assert(command_views(queue@) =~= seq![command@] + command_views(before));
    assert(command_views(before) =~= if cancel {
        Seq::<CommandView>::empty()
    } else {
        command_views(old(queue)@)
    });
}

/// The next command to send: the one queued longest ago.
pub fn next_command(queue: &mut Vec<Command>) -> (r: Option<Command>)
    ensures
        old(queue)@.len() == 0 ==> r is None && final(queue)@ == old(queue)@,
        old(queue)@.len() > 0 ==> r == Some(old(queue)@.last()) && final(queue)@
            == old(queue)@.drop_last(),
{
    queue.pop()
}

/// Takes every reply out of the reply buffer, leaving it empty.
pub fn take_all(buffer: &mut Vec<Command>) -> (r: Vec<Command>)
    ensures
        r@ == old(buffer)@,
        final(buffer)@.len() == 0,
{
    let mut out: Vec<Command> = Vec::new();
    std::mem::swap(&mut out, buffer);
    out
}

/// The reply text kept for a command: the settings listings (`$$`, `$N`)
/// keep their line breaks; other replies lose every `'\n'` and `'\r'`.
pub open spec fn reply_text(command: Seq<char>, line: Seq<char>) -> Seq<char> {
    if command == seq!['$', '$'] || command == seq!['$', 'N'] {
        line
    } else {
        remove_all(remove_all(line, seq!['\n']), seq!['\r'])
    }
}

/// The reply text kept for `command` from the reply `line`.
pub fn response_text(command: &str, line: String) -> (r: String)
    ensures
        r@ == reply_text(command@, line@),
{
    proof {
        reveal_strlit("$$");
        reveal_strlit("$N");
        reveal_strlit("\n");
        reveal_strlit("\r");
    }
    assert("$$"@ =~= seq!['$', '$']);
    assert("$N"@ =~= seq!['$', 'N']);
    assert("\n"@ =~= seq!['\n']);
    assert("\r"@ =~= seq!['\r']);
    if str_eq(command, "$$") || str_eq(command, "$N") {
        line
    } else {
        let a = remove_all_str(line.as_str(), "\n");
        remove_all_str(a.as_str(), "\r")
    }
}

/// The pieces of `s` between `'='` characters (`str::split('=')`).
pub open spec fn split_on_equals(s: Seq<char>) -> Seq<Seq<char>>
    decreases s.len(),
{
    if s.len() == 0 {
        seq![Seq::empty()]
    } else {
        let p = split_on_equals(s.drop_last());
        if s.last() == '=' {
            p.push(Seq::empty())
        } else {
            p.update(p.len() - 1, p.last().push(s.last()))
        }
    }
}

proof fn lemma_split_on_equals_len(s: Seq<char>)
    ensures
        split_on_equals(s).len() >= 1,
    decreases s.len(),
{
    if s.len() > 0 {
        lemma_split_on_equals_len(s.drop_last());
    }
}

/// The first two pieces of a line split at `'='`, when it has at least two.
fn split_setting(line: &str) -> (r: Option<(String, String)>)
    ensures
        ({
            let p = split_on_equals(line@);
            if p.len() > 1 {
                r matches Some(kv) && kv.0@ == p[0] && kv.1@ == p[1]
            } else {
                r is None
            }
        }),
{
    let x = chars_of(line);
    let mut pieces: Vec<Vec<char>> = Vec::new();
    let mut cur: Vec<char> = Vec::new();
    let mut i: usize = 0;
    while i < x.len()
        invariant
            x@ == line@,
            i <= x@.len(),
            pieces@.map_values(|v: Vec<char>| v@).push(cur@) == split_on_equals(x@.take(i as int)),
        decreases x@.len() - i,
    {
        let ghost before = pieces@.map_values(|v: Vec<char>| v@).push(cur@);
        proof {
            assert(x@.take(i + 1).drop_last() =~= x@.take(i as int));
            assert(x@.take(i + 1).last() == x@[i as int]);
        }
        if x[i] == '=' {
            let done = cur;
            pieces.push(done);
            cur = Vec::new();
            assert(pieces@.map_values(|v: Vec<char>| v@).push(cur@) =~= before.push(Seq::empty()));
        } else {
            cur.push(x[i]);
            assert(pieces@.map_values(|v: Vec<char>| v@).push(cur@) =~= before.update(
                before.len() - 1,
                before.last().push(x@[i as int]),
            ));
        }
        i = i + 1;
    }
    assert(x@.take(i as int) =~= line@);
    let ghost p = split_on_equals(line@);
    assert(p.len() == pieces@.len() + 1);
    if pieces.len() == 0 {
        return None;
    }
    let first = string_of(&pieces[0]);
    let second = if pieces.len() >= 2 {
        string_of(&pieces[1])
    } else {
        string_of(&cur)
    };
    proof {
        assert(pieces@.map_values(|v: Vec<char>| v@).push(cur@)[0] == pieces@[0]@);
        if pieces@.len() >= 2 {
            assert(pieces@.map_values(|v: Vec<char>| v@).push(cur@)[1] == pieces@[1]@);
        } else {
            assert(pieces@.map_values(|v: Vec<char>| v@).push(cur@)[1] == cur@);
        }
    }
    Some((first, second))
}

/// The settings of a settings listing: for every line with at least one
/// `'='`, the text before the first `'='` and the text between the first and
/// the second.
pub open spec fn settings_of(ls: Seq<Seq<char>>) -> Seq<(Seq<char>, Seq<char>)>
    decreases ls.len(),
{
    if ls.len() == 0 {
        Seq::empty()
    } else {
        let p = split_on_equals(ls.last());
        let rest = settings_of(ls.drop_last());
        if p.len() > 1 {
            rest.push((p[0], p[1]))
        } else {
            rest
        }
    }
}

/// The settings in the controller's reply to `$$`, as (setting, value).
pub fn parse_settings(listing: &str) -> (r: Vec<(String, String)>)
    ensures
        r@.map_values(|kv: (String, String)| (kv.0@, kv.1@)) == settings_of(lines_of(listing@)),
{
    let ls = split_lines(listing);
    let mut out: Vec<(String, String)> = Vec::new();
    for i in 0..ls.len()
        invariant
            views(ls@) == lines_of(listing@),
            out@.map_values(|kv: (String, String)| (kv.0@, kv.1@)) == settings_of(
                views(ls@).take(i as int),
            ),
    {
        let ghost before = out@.map_values(|kv: (String, String)| (kv.0@, kv.1@));
        proof {
            assert(views(ls@).take(i + 1).drop_last() =~= views(ls@).take(i as int));
            assert(views(ls@).take(i + 1).last() == ls@[i as int]@);
        }
        match split_setting(ls[i].as_str()) {
            Some(kv) => {
                out.push(kv);
                assert(out@.map_values(|kv: (String, String)| (kv.0@, kv.1@)) =~= before.push(
                    (out@.last().0@, out@.last().1@),
                ));
            },
            None => {},
        }
    }
    assert(views(ls@).take(ls@.len() as int) =~= views(ls@));
    out
}

/// The name of a month given as two digits, as the version line shows it;
/// empty for anything else.
pub open spec fn month_name(m: Seq<char>) -> Seq<char> {
    if m == seq!['0', '1'] {
        "January"@
    } else if m == seq!['0', '2'] {
        "Febuary"@
    } else if m == seq!['0', '3'] {
        "March"@
    } else if m == seq!['0', '4'] {
        "April"@
    } else if m == seq!['0', '5'] {
        "May"@
    } else if m == seq!['0', '6'] {
        "June"@
    } else if m == seq!['0', '7'] {
        "July"@
    } else if m == seq!['0', '8'] {
        "August"@
    } else if m == seq!['0', '9'] {
        "September"@
    } else if m == seq!['1', '0'] {
        "October"@
    } else if m == seq!['1', '1'] {
        "November"@
    } else if m == seq!['1', '2'] {
        "December"@
    } else {
        Seq::empty()
    }
}

fn month_of(a: char, b: char) -> (r: &'static str)
    ensures
        r@ == month_name(seq![a, b]),
{
    if a == '0' && b == '1' {
        "January"
    } else if a == '0' && b == '2' {
        "Febuary"
    } else if a == '0' && b == '3' {
        "March"
    } else if a == '0' && b == '4' {
        "April"
    } else if a == '0' && b == '5' {
        "May"
    } else if a == '0' && b == '6' {
        "June"
    } else if a == '0' && b == '7' {
        "July"
    } else if a == '0' && b == '8' {
        "August"
    } else if a == '0' && b == '9' {
        "September"
    } else if a == '1' && b == '0' {
        "October"
    } else if a == '1' && b == '1' {
        "November"
    } else if a == '1' && b == '2' {
        "December"
    } else {
        proof {
            reveal_strlit("");
        }
        assert(""@ =~= Seq::<char>::empty());
        ""
    }
}

/// The characters of `s` whose UTF-8 encoding is bytes `i` to `j` of the
/// encoding of `s` (what `&s[i..j]` holds).
pub open spec fn byte_slice(s: Seq<char>, i: int, j: int) -> Seq<char> {
    decode_utf8(encode_utf8(s).subrange(i, j))
}

/// Whether `&s[i..j]` can be taken: `i <= j`, `j` within the encoding of
/// `s`, and both on character boundaries.
pub open spec fn can_slice(s: Seq<char>, i: int, j: int) -> bool {
    &&& 0 <= i <= j <= encode_utf8(s).len()
    &&& is_char_boundary(encode_utf8(s), i)
    &&& is_char_boundary(encode_utf8(s), j)
}

/// A build date `YYYYMMDD` as "Month DD, YYYY": the month from bytes 4 to
/// 6, the day from bytes 6 to 8 and the year from bytes 0 to 4.
pub open spec fn date_text(d: Seq<char>) -> Seq<char> {
    month_name(byte_slice(d, 4, 6)) + seq![' '] + byte_slice(d, 6, 8) + seq![',', ' '] + byte_slice(d, 0, 4)
}

/// The name of the month written `m`, as `month_name` says.
fn month_of_str(m: &str) -> (r: &'static str)
    ensures
        r@ == month_name(m@),
{
    let cs = chars_of(m);
    if cs.len() == 2 {
        assert(m@ =~= seq![cs@[0], cs@[1]]);
        month_of(cs[0], cs[1])
    } else {
        proof {
            reveal_strlit("");
            assert(m@.len() != 2);
            assert(m@ != seq!['0', '1']);
        }
        assert(""@ =~= Seq::<char>::empty());
        ""
    }
}

/// A character boundary of a valid encoding at `i + k`, with one at `i`,
/// is one at `k` of what follows `i`.
proof fn lemma_boundary_after(bytes: Seq<u8>, i: int, k: int)
    requires
        valid_utf8(bytes),
        0 <= i,
        0 <= k,
        i + k <= bytes.len(),
        is_char_boundary(bytes, i),
        is_char_boundary(bytes, i + k),
    ensures
        valid_utf8(bytes.subrange(i, bytes.len() as int)),
        is_char_boundary(bytes.subrange(i, bytes.len() as int), k),
{
    broadcast use vstd::utf8::group_utf8_lib;

    let rest = bytes.subrange(i, bytes.len() as int);
    assert(valid_utf8(rest));
    if i + k == bytes.len() {
        assert(k == rest.len());
        assert(is_char_boundary(rest, rest.len() as int));
    } else {
        assert(rest[k] == bytes[i + k]);
        vstd::utf8::is_char_boundary_iff_is_leading_byte(bytes, i + k);
        vstd::utf8::is_char_boundary_iff_is_leading_byte(rest, k);
    }
}

/// Writes the build date `YYYYMMDD` as "Month DD, YYYY", taking its parts
/// by byte position (`&date_num[4..6]`, `&date_num[6..8]`,
/// `&date_num[0..4]`): the text must have at least eight bytes, with
/// character boundaries at bytes 4, 6 and 8.
pub fn date(date_num: &str) -> (r: String)
    requires
        can_slice(date_num@, 0, 8),
        can_slice(date_num@, 4, 6),
    ensures
        r@ == date_text(date_num@),
{
    broadcast use vstd::utf8::group_utf8_lib;

    let ghost b = encode_utf8(date_num@);
    let (year, rest) = date_num.split_at(4);
    proof {
        lemma_boundary_after(b, 4, 2);
        lemma_boundary_after(b, 4, 4);
    }
    let ghost rb = b.subrange(4, b.len() as int);
    let (month, rest2) = rest.split_at(2);
    proof {
        assert(rest2@ == decode_utf8(encode_utf8(rest2@)));
        assert(encode_utf8(rest2@) =~= rb.subrange(2, rb.len() as int));
        assert(rb.subrange(2, rb.len() as int) =~= b.subrange(6, b.len() as int));
        lemma_boundary_after(b, 6, 2);
    }
    let (day, _) = rest2.split_at(2);
    proof {
        assert(year@ == decode_utf8(encode_utf8(year@)));
        assert(month@ == decode_utf8(encode_utf8(month@)));
        assert(day@ == decode_utf8(encode_utf8(day@)));
        assert(encode_utf8(year@) =~= b.subrange(0, 4));
        assert(encode_utf8(month@) =~= b.subrange(4, 6));
        assert(encode_utf8(day@) =~= b.subrange(6, 8));
    }
    let mut r = copy_str(month_of_str(month));
    push_char(&mut r, ' ');
    append_str(&mut r, day);
    push_char(&mut r, ',');
    push_char(&mut r, ' ');
    append_str(&mut r, year);
    assert(r@ =~= date_text(date_num@));
    r
}

/// Eight ASCII characters can be cut at any byte position, and each part
/// is the characters at the same positions.
proof fn lemma_ascii_slices(d: Seq<char>)
    requires
        d.len() == 8,
        is_ascii_chars(d),
    ensures
        can_slice(d, 0, 8),
        can_slice(d, 4, 6),
{
    broadcast use vstd::utf8::group_utf8_lib;

    let b = encode_utf8(d);
    assert(b.len() == 8);
    assert(is_char_boundary(b, 0));
    assert(is_char_boundary(b, 8));
    assert(is_leading_byte_width_1(b[4]));
    assert(is_leading_byte_width_1(b[6]));
    assert(is_char_boundary(b, 4));
    assert(is_char_boundary(b, 6));
}

/// Character classes used by the reply grammars.
#[derive(Clone, Copy, PartialEq, Eq, Debug)]
pub enum CharClass {
    /// `[0-9]`
    Digit,
    /// `\.`
    Dot,
    /// `[a-z]`
    Lower,
    /// `[A-Za-z]`
    Letter,
    /// `[-0-9.]`
    Number,
}

/// Membership of a character in a class.
pub open spec fn in_class(c: char, k: CharClass) -> bool {
    match k {
        CharClass::Digit => is_digit_char(c),
        CharClass::Dot => c == '.',
        CharClass::Lower => 'a' <= c && c <= 'z',
        CharClass::Letter => ('a' <= c && c <= 'z') || ('A' <= c && c <= 'Z'),
        CharClass::Number => c == '-' || c == '.' || is_digit_char(c),
    }
}

fn char_in_class(c: char, k: CharClass) -> (r: bool)
    ensures
        r == in_class(c, k),
{
    match k {
        CharClass::Digit => '0' <= c && c <= '9',
        CharClass::Dot => c == '.',
        CharClass::Lower => 'a' <= c && c <= 'z',
        CharClass::Letter => ('a' <= c && c <= 'z') || ('A' <= c && c <= 'Z'),
        CharClass::Number => c == '-' || c == '.' || ('0' <= c && c <= '9'),
    }
}

/// The length of the longest run of characters of class `k` starting at `q`.
pub open spec fn run_len(s: Seq<char>, q: int, k: CharClass) -> nat
    decreases s.len() - q,
{
    if 0 <= q < s.len() && in_class(s[q], k) {
        1 + run_len(s, q + 1, k)
    } else {
        0
    }
}

proof fn lemma_run_len(s: Seq<char>, q: int, k: CharClass)
    requires
        0 <= q <= s.len(),
    ensures
        q + run_len(s, q, k) <= s.len(),
        forall|j: int| q <= j < q + run_len(s, q, k) ==> in_class(#[trigger] s[j], k),
        q + run_len(s, q, k) < s.len() ==> !in_class(s[q + run_len(s, q, k)], k),
    decreases s.len() - q,
{
    if q < s.len() && in_class(s[q], k) {
        lemma_run_len(s, q + 1, k);
    }
}

/// The length of the run of class `k` starting at `q`.
fn run_length(x: &Vec<char>, q: usize, k: CharClass) -> (r: usize)
    requires
        q <= x@.len(),
    ensures
        r == run_len(x@, q as int, k),
        q + r <= x@.len(),
{
    let mut j = q;
    while j < x.len() && char_in_class(x[j], k)
        invariant
            q <= j <= x@.len(),
            run_len(x@, q as int, k) == (j - q) + run_len(x@, j as int, k),
        decreases x@.len() - j,
    {
        j = j + 1;
    }
    proof {
        lemma_run_len(x@, q as int, k);
    }
    j - q
}

/// A version number can start at `p`: digits, then a dot.
pub open spec fn version_at(s: Seq<char>, p: int) -> bool {
    let d = run_len(s, p, CharClass::Digit);
    0 <= p && p + d < s.len() && s[p + d] == '.'
}

/// The end of the version number that starts at `p`: digits, dots, digits,
/// lower-case letters, each run as long as it goes.
pub open spec fn version_end(s: Seq<char>, p: int) -> int {
    let a = p + run_len(s, p, CharClass::Digit);
    let b = a + run_len(s, a, CharClass::Dot);
    let c = b + run_len(s, b, CharClass::Digit);
    c + run_len(s, c, CharClass::Lower)
}

/// The version number in the controller's build information: the leftmost
/// text of the form digits, one or more dots, digits, lower-case letters
/// (`[0-9]*\.+[0-9]*[a-z]*`).
#[verifier::opaque]
pub open spec fn version_of(s: Seq<char>) -> Option<Seq<char>> {
    if exists|p: int| version_at(s, p) {
        let p = choose|p: int|
            version_at(s, p) && forall|q: int| 0 <= q < p ==> !#[trigger] version_at(s, q);
        Some(s.subrange(p, version_end(s, p)))
    } else {
        None
    }
}

proof fn lemma_first_version(s: Seq<char>, p: int)
    requires
        version_at(s, p),
        forall|q: int| 0 <= q < p ==> !#[trigger] version_at(s, q),
    ensures
        version_of(s) == Some(s.subrange(p, version_end(s, p))),
{
    reveal(version_of);
    let c = choose|c: int| version_at(s, c) && forall|q: int| 0 <= q < c ==> !#[trigger] version_at(s, q);
    if c < p {
        assert(!version_at(s, c));
    }
    if p < c {
        assert(!version_at(s, p));
    }
}

/// The version number in the controller's build information.
pub fn grbl_version(info: &str) -> (r: Option<String>)
    ensures
        r matches Some(v) ==> version_of(info@) == Some(v@),
        r is None ==> version_of(info@) is None,
{
    let x = chars_of(info);
    let mut p: usize = 0;
    while p < x.len()
        invariant
            x@ == info@,
            p <= x@.len(),
            forall|q: int| 0 <= q < p ==> !#[trigger] version_at(info@, q),
        decreases x@.len() - p,
    {
        let d = run_length(&x, p, CharClass::Digit);
        if p + d < x.len() && x[p + d] == '.' {
            let a = p + d;
            let b = a + run_length(&x, a, CharClass::Dot);
            let c = b + run_length(&x, b, CharClass::Digit);
            let e = c + run_length(&x, c, CharClass::Lower);
            let mut v: Vec<char> = Vec::new();
            let mut j = p;
            while j < e
                invariant
                    p <= j <= e,
                    e <= x@.len(),
                    v@ == x@.subrange(p as int, j as int),
                decreases e - j,
            {
                v.push(x[j]);
                assert(v@ =~= x@.subrange(p as int, j + 1));
                j = j + 1;
            }
            proof {
                lemma_first_version(info@, p as int);
            }
            return Some(string_of(&v));
        }
        p = p + 1;
    }
    proof {
        reveal(version_of);
        assert forall|q: int| !version_at(info@, q) by {
            if q >= x@.len() {
                assert(run_len(info@, q, CharClass::Digit) == 0);
            }
        }
    }
    None
}

/// Eight digits start at `p`.
pub open spec fn date_at(s: Seq<char>, p: int) -> bool {
    0 <= p && run_len(s, p, CharClass::Digit) >= 8
}

/// The build date in the controller's build information: the leftmost
/// eight digits in a row (`[0-9]{8}`).
#[verifier::opaque]
pub open spec fn build_date_of(s: Seq<char>) -> Option<Seq<char>> {
    if exists|p: int| date_at(s, p) {
        let p = choose|p: int| date_at(s, p) && forall|q: int| 0 <= q < p ==> !#[trigger] date_at(s, q);
        Some(s.subrange(p, p + 8))
    } else {
        None
    }
}

proof fn lemma_first_date(s: Seq<char>, p: int)
    requires
        date_at(s, p),
        forall|q: int| 0 <= q < p ==> !#[trigger] date_at(s, q),
    ensures
        build_date_of(s) == Some(s.subrange(p, p + 8)),
{
    reveal(build_date_of);
    let c = choose|c: int| date_at(s, c) && forall|q: int| 0 <= q < c ==> !#[trigger] date_at(s, q);
    if c < p {
        assert(!date_at(s, c));
    }
    if p < c {
        assert(!date_at(s, p));
    }
}

proof fn lemma_min_date_exists(s: Seq<char>, w: int)
    requires
        date_at(s, w),
    ensures
        exists|p: int| date_at(s, p) && forall|q: int| 0 <= q < p ==> !#[trigger] date_at(s, q),
    decreases w,
{
    if exists|q: int| 0 <= q < w && date_at(s, q) {
        let q = choose|q: int| 0 <= q < w && date_at(s, q);
        lemma_min_date_exists(s, q);
    } else {
        assert(forall|q: int| 0 <= q < w ==> !#[trigger] date_at(s, q));
    }
}

proof fn lemma_build_date_ascii(s: Seq<char>)
    requires
        build_date_of(s) is Some,
    ensures
        ({
            let b = build_date_of(s)->0;
            &&& b.len() == 8
            &&& is_ascii_chars(b)
        }),
{
    reveal(build_date_of);
    let w = choose|p: int| date_at(s, p);
    lemma_min_date_exists(s, w);
    let p = choose|p: int| date_at(s, p) && forall|q: int| 0 <= q < p ==> !#[trigger] date_at(s, q);
    assert(0 <= p < s.len());
    lemma_run_len(s, p, CharClass::Digit);
    let b = build_date_of(s)->0;
    assert(b == s.subrange(p, p + 8));
    assert forall|i: int| 0 <= i < b.len() implies '\0' <= #[trigger] b[i] <= '\u{7f}' by {
        assert(b[i] == s[p + i]);
        assert(in_class(s[p + i], CharClass::Digit));
    }
}

/// The build date digits in the controller's build information.
pub fn grbl_build_date(info: &str) -> (r: Option<String>)
    ensures
        r matches Some(v) ==> build_date_of(info@) == Some(v@),
        r is None ==> build_date_of(info@) is None,
{
    let x = chars_of(info);
    let mut p: usize = 0;
    while p < x.len()
        invariant
            x@ == info@,
            p <= x@.len(),
            forall|q: int| 0 <= q < p ==> !#[trigger] date_at(info@, q),
        decreases x@.len() - p,
    {
        let d = run_length(&x, p, CharClass::Digit);
        if d >= 8 {
            let end = p + 8;
            let mut v: Vec<char> = Vec::new();
            let mut j = p;
            while j < end
                invariant
                    end == p + 8,
                    p <= j <= end,
                    end <= x@.len(),
                    v@ == x@.subrange(p as int, j as int),
                decreases end - j,
            {
                v.push(x[j]);
                assert(v@ =~= x@.subrange(p as int, j + 1));
                j = j + 1;
            }
            proof {
                lemma_first_date(info@, p as int);
            }
            return Some(string_of(&v));
        }
        p = p + 1;
    }
    proof {
        reveal(build_date_of);
        assert forall|q: int| !date_at(info@, q) by {
            if q >= x@.len() {
                assert(run_len(info@, q, CharClass::Digit) == 0);
            }
        }
    }
    None
}

/// The version and the build date ("Month DD, YYYY") in the controller's
/// reply to `$I`.
pub fn build_info(info: &str) -> (r: (Option<String>, Option<String>))
    ensures
        r.0 matches Some(v) ==> version_of(info@) == Some(v@),
        r.0 is None ==> version_of(info@) is None,
        r.1 matches Some(d) ==> (build_date_of(info@) matches Some(b) && d@ == date_text(b)),
        r.1 is None ==> build_date_of(info@) is None,
{
    let version = grbl_version(info);
    let date_text_opt = match grbl_build_date(info) {
        Some(b) => {
            proof {
                lemma_build_date_ascii(info@);
                lemma_ascii_slices(b@);
            }
            Some(date(b.as_str()))
        },
        None => None,
    };
    (version, date_text_opt)
}

/// The position of the first `'.'` in `b`, or its length when it has none.
pub open spec fn dot_index(b: Seq<char>) -> nat
    decreases b.len(),
{
    if b.len() == 0 || b[0] == '.' {
        0
    } else {
        1 + dot_index(b.skip(1))
    }
}

proof fn lemma_dot_index(b: Seq<char>)
    ensures
        dot_index(b) <= b.len(),
        dot_index(b) < b.len() ==> b[dot_index(b) as int] == '.',
        forall|j: int| 0 <= j < dot_index(b) ==> #[trigger] b[j] != '.',
    decreases b.len(),
{
    if b.len() > 0 && b[0] != '.' {
        lemma_dot_index(b.skip(1));
        assert forall|j: int| 0 <= j < dot_index(b) implies #[trigger] b[j] != '.' by {
            if j > 0 {
                assert(b[j] == b.skip(1)[j - 1]);
            }
        }
    }
}

/// The value of up to three fraction digits, in thousandths.
pub open spec fn thousandths(f: Seq<char>) -> int {
    if f.len() == 0 {
        0
    } else if f.len() == 1 {
        digit_value(f[0]) * 100
    } else if f.len() == 2 {
        digit_value(f[0]) * 100 + digit_value(f[1]) * 10
    } else {
        digit_value(f[0]) * 100 + digit_value(f[1]) * 10 + digit_value(f[2])
    }
}

/// A decimal number of the status report (`-` sign optional, one optional
/// `'.'`, at least one digit), in thousandths, fraction digits beyond the
/// third dropped; `None` for any other text and for values beyond `i64`.
pub open spec fn milli_of(t: Seq<char>) -> Option<int> {
    let neg = t.len() > 0 && t[0] == '-';
    let b = if neg {
        t.skip(1)
    } else {
        t
    };
    let d = dot_index(b) as int;
    let ip = b.take(d);
    let fp = if d < b.len() {
        b.skip(d + 1)
    } else {
        Seq::empty()
    };
    let v = decimal_value(ip) * 1000 + thousandths(fp);
    if crate::text::all_digits(ip) && crate::text::all_digits(fp) && ip.len() + fp.len() >= 1 && v
        <= i64::MAX {
        Some(
            if neg {
                -v
            } else {
                v
            },
        )
    } else {
        None
    }
}

fn digit_of(c: char) -> (r: i64)
    requires
        is_digit_char(c),
    ensures
        r == digit_value(c),
        0 <= r <= 9,
{
    (c as u32 - '0' as u32) as i64
}

/// Reads a decimal number of the status report in thousandths.
pub fn parse_milli(t: &Vec<char>) -> (r: Option<i64>)
    ensures
        r matches Some(v) ==> milli_of(t@) == Some(v as int),
        r is None ==> milli_of(t@) is None,
{
    let neg = t.len() > 0 && t[0] == '-';
    let start: usize = if neg {
        1
    } else {
        0
    };
    let ghost b = if neg {
        t@.skip(1)
    } else {
        t@
    };
    assert(b =~= t@.skip(start as int));
    proof {
        lemma_dot_index(b);
    }
    // integer part
    let mut i = start;
    let mut acc: i64 = 0;
    while i < t.len() && t[i] != '.'
        invariant
            b == t@.skip(start as int),
            neg == (t@.len() > 0 && t@[0] == '-'),
            b == (if neg {
                t@.skip(1)
            } else {
                t@
            }),
            start <= i <= t@.len(),
            start <= 1,
            start == 1 ==> t@.len() > 0 && t@[0] == '-',
            start == 0 ==> !(t@.len() > 0 && t@[0] == '-'),
            dot_index(b) <= b.len(),
            dot_index(b) < b.len() ==> b[dot_index(b) as int] == '.',
            i - start <= dot_index(b),
            crate::text::all_digits(b.take(i - start)),
            acc as int == decimal_value(b.take(i - start)),
            acc as int * 1000 <= i64::MAX,
        decreases t@.len() - i,
    {
        let c = t[i];
        assert(b[i - start] == c);
        assert(i - start < dot_index(b)) by {
            if i - start == dot_index(b) {
                assert(dot_index(b) < b.len());
            }
        }
        assert(b.take(i - start + 1).drop_last() =~= b.take(i - start));
        if !('0' <= c && c <= '9') {
            proof {
                let ip = b.take(dot_index(b) as int);
                assert(ip[i - start] == c);
                assert(!crate::text::all_digits(ip));
            }
            return None;
        }
        let dv = digit_of(c);
        let next = acc * 10 + dv;
        if next > i64::MAX / 1000 {
            proof {
                let ip = b.take(dot_index(b) as int);
                assert(ip.take(i - start + 1) =~= b.take(i - start + 1));
                assert(decimal_value(b.take(i - start + 1)) == next);
                if crate::text::all_digits(ip) {
                    crate::text::lemma_decimal_value_prefix_le(ip, i - start + 1);
                    assert(decimal_value(ip) * 1000 > i64::MAX) by (nonlinear_arith)
                        requires
                            decimal_value(ip) >= next,
                            next > i64::MAX / 1000,
                    ;
                }
            }
            return None;
        }
        acc = next;
        assert(acc * 1000 <= i64::MAX) by (nonlinear_arith)
            requires
                acc <= i64::MAX / 1000,
        ;
        i = i + 1;
    }
    let ghost d = dot_index(b) as int;
    assert(i - start == d) by {
        if i < t@.len() {
            assert(b[i - start] == '.');
        }
    }
    let ghost ip = b.take(d);
    let ghost fp = if d < b.len() {
        b.skip(d + 1)
    } else {
        Seq::<char>::empty()
    };
    // fraction part
    let mut frac: i64 = 0;
    let mut nfrac: usize = 0;
    if i < t.len() {
        let mut j = i + 1;
        assert(fp =~= t@.skip(j as int));
        while j < t.len()
            invariant
                fp == t@.skip(i + 1),
                b == t@.skip(start as int),
                neg == (t@.len() > 0 && t@[0] == '-'),
                b == (if neg {
                    t@.skip(1)
                } else {
                    t@
                }),
                dot_index(b) == i - start,
                i < t@.len(),
                start <= 1,
                start == 1 ==> t@.len() > 0 && t@[0] == '-',
                start == 0 ==> !(t@.len() > 0 && t@[0] == '-'),
                fp == (if (dot_index(b) as int) < b.len() {
                    b.skip(dot_index(b) + 1int)
                } else {
                    Seq::<char>::empty()
                }),
                i + 1 <= j <= t@.len(),
                crate::text::all_digits(fp.take(j - i - 1)),
                nfrac == j - i - 1,
                frac as int == thousandths(fp.take(j - i - 1)),
            decreases t@.len() - j,
        {
            let c = t[j];
            assert(fp[j - i - 1] == c);
            if !('0' <= c && c <= '9') {
                assert(!crate::text::all_digits(fp));
                return None;
            }
            let dv = digit_of(c);
            if nfrac == 0 {
                frac = dv * 100;
            } else if nfrac == 1 {
                frac = frac + dv * 10;
            } else if nfrac == 2 {
                frac = frac + dv;
            }
            nfrac = nfrac + 1;
            j = j + 1;
            assert(fp.take(j - i - 1).take(j - i - 2) =~= fp.take(j - i - 2));
            assert(fp.take(j - i - 1)[j - i - 2] == c);
        }
        assert(fp.take(j - i - 1) =~= fp);
    } else {
        assert(fp.len() == 0);
    }
    assert(ip =~= b.take(i - start));
    if i == start && nfrac == 0 {
        return None;
    }
    assert(0 <= frac <= 999);
    if acc > (i64::MAX - frac) / 1000 {
        assert(acc * 1000 + frac > i64::MAX) by (nonlinear_arith)
            requires
                acc > (i64::MAX - frac) / 1000,
                0 <= frac <= 999,
        ;
        return None;
    }
    assert(acc * 1000 + frac <= i64::MAX) by (nonlinear_arith)
        requires
            acc <= (i64::MAX - frac) / 1000,
            0 <= frac <= 999,
            acc >= 0,
    ;
    let v = acc * 1000 + frac;
    assert(v as int == decimal_value(ip) * 1000 + thousandths(fp));
    if neg {
        Some(-v)
    } else {
        Some(v)
    }
}

/// Six characters, none a newline, start at `q` (`.{6}`).
pub open spec fn window_ok(s: Seq<char>, q: int) -> bool {
    0 <= q && q + 6 <= s.len() && forall|j: int| q <= j < q + 6 ==> s[j] != '\n'
}

/// The three coordinates that start at `r`: runs of `[-0-9.]`, the first two
/// each followed by a comma (`([-\d.]+),([-\d.]+),([-\d.]+)`).
pub open spec fn coords_at(s: Seq<char>, r: int) -> Option<(Seq<char>, Seq<char>, Seq<char>)> {
    let a = run_len(s, r, CharClass::Number) as int;
    let r2 = r + a + 1;
    let b = run_len(s, r2, CharClass::Number) as int;
    let r3 = r2 + b + 1;
    let c = run_len(s, r3, CharClass::Number) as int;
    if 0 <= r && a >= 1 && r + a < s.len() && s[r + a] == ',' && b >= 1 && r2 + b < s.len() && s[r2
        + b] == ',' && c >= 1 {
        Some((s.subrange(r, r + a), s.subrange(r2, r2 + b), s.subrange(r3, r3 + c)))
    } else {
        None
    }
}

/// A status report matches with its state name being the `l` letters at
/// `p`: then six characters other than newlines, then the coordinates.
pub open spec fn status_at(s: Seq<char>, p: int, l: int) -> bool {
    0 <= p && 1 <= l <= run_len(s, p, CharClass::Letter) && window_ok(s, p + l) && coords_at(
        s,
        p + l + 6,
    ) is Some
}

/// `(p, l)` is the match the report grammar
/// `([A-Za-z]+).{6}([-\d.]+),([-\d.]+),([-\d.]+)` picks: the leftmost start,
/// and there the longest state name.
pub open spec fn status_pick(s: Seq<char>, p: int, l: int) -> bool {
    status_at(s, p, l) && forall|p2: int, l2: int|
        #[trigger] status_at(s, p2, l2) ==> p < p2 || (p == p2 && l2 <= l)
}

/// The state name and the three coordinate texts of a status report.
#[verifier::opaque]
pub open spec fn status_fields(s: Seq<char>) -> Option<(Seq<char>, Seq<char>, Seq<char>, Seq<char>)> {
    if exists|p: int, l: int| status_pick(s, p, l) {
        let (p, l) = choose|p: int, l: int| status_pick(s, p, l);
        let c = coords_at(s, p + l + 6)->0;
        Some((s.subrange(p, p + l), c.0, c.1, c.2))
    } else {
        None
    }
}

/// The mathematical value of a status report.
pub struct StatusView {
    pub status: Seq<char>,
    pub x: int,
    pub y: int,
    pub z: int,
}

/// The controller's state and machine position.
#[derive(Debug, Clone)]
pub struct Status {
    pub status: String,
    /// Position in thousandths of a centimetre.
    pub x: i64,
    /// Position in thousandths of a centimetre.
    pub y: i64,
    /// Position in thousandths of a centimetre.
    pub z: i64,
}

impl View for Status {
    type V = StatusView;

    open spec fn view(&self) -> StatusView {
        StatusView { status: self.status@, x: self.x as int, y: self.y as int, z: self.z as int }
    }
}

/// The status in a status report: the picked match, its coordinates read
/// in thousandths; nothing where there is no match or a coordinate is not a
/// number.
pub open spec fn status_of(s: Seq<char>) -> Option<StatusView> {
    match status_fields(s) {
        Some(f) => match (milli_of(f.1), milli_of(f.2), milli_of(f.3)) {
            (Some(x), Some(y), Some(z)) => Some(StatusView { status: f.0, x, y, z }),
            _ => None,
        },
        None => None,
    }
}

fn window_ok_exec(x: &Vec<char>, q: usize) -> (r: bool)
    ensures
        r == window_ok(x@, q as int),
{
    if q > x.len() || x.len() - q < 6 {
        return false;
    }
    let end = q + 6;
    let mut j = q;
    while j < end
        invariant
            end == q + 6,
            end <= x@.len(),
            q <= j <= end,
            forall|k: int| q <= k < j ==> x@[k] != '\n',
        decreases end - j,
    {
        if x[j] == '\n' {
            return false;
        }
        j = j + 1;
    }
    true
}

fn copy_range(x: &Vec<char>, from: usize, to: usize) -> (r: Vec<char>)
    requires
        from <= to <= x@.len(),
    ensures
        r@ == x@.subrange(from as int, to as int),
{
    let mut v: Vec<char> = Vec::new();
    let mut j = from;
    while j < to
        invariant
            from <= j <= to,
            to <= x@.len(),
            v@ == x@.subrange(from as int, j as int),
        decreases to - j,
    {
        v.push(x[j]);
        assert(v@ =~= x@.subrange(from as int, j + 1));
        j = j + 1;
    }
    v
}

fn coords_exec(x: &Vec<char>, r: usize) -> (res: Option<(Vec<char>, Vec<char>, Vec<char>)>)
    requires
        r <= x@.len(),
    ensures
        res matches Some(c) ==> coords_at(x@, r as int) == Some((c.0@, c.1@, c.2@)),
        res is None ==> coords_at(x@, r as int) is None,
{
    let n = x.len();
    let a = run_length(x, r, CharClass::Number);
    if a < 1 || r + a >= x.len() || x[r + a] != ',' {
        return None;
    }
    let r2 = r + a + 1;
    let b = run_length(x, r2, CharClass::Number);
    if b < 1 || r2 + b >= x.len() || x[r2 + b] != ',' {
        return None;
    }
    let r3 = r2 + b + 1;
    let c = run_length(x, r3, CharClass::Number);
    if c < 1 {
        return None;
    }
    Some((copy_range(x, r, r + a), copy_range(x, r2, r2 + b), copy_range(x, r3, r3 + c)))
}

proof fn lemma_status_pick_unique(s: Seq<char>, p: int, l: int)
    requires
        status_pick(s, p, l),
    ensures
        ({
            let c = coords_at(s, p + l + 6)->0;
            status_fields(s) == Some((s.subrange(p, p + l), c.0, c.1, c.2))
        }),
{
    reveal(status_fields);
    let (p1, l1) = choose|p: int, l: int| status_pick(s, p, l);
    assert(status_at(s, p1, l1));
    assert(status_at(s, p, l));
}

/// Reads the status report `line`: the controller state and the machine
/// position in thousandths; `None` where the report does not match the
/// grammar or a coordinate is not a number.
pub fn parse_status(line: &str) -> (r: Option<Status>)
    ensures
        r matches Some(st) ==> status_of(line@) == Some(st@),
        r is None ==> status_of(line@) is None,
{
    let x = chars_of(line);
    let n = x.len();
    let mut p: usize = 0;
    while p < x.len()
        invariant
            x@ == line@,
            n == x@.len(),
            p <= x@.len(),
            forall|p2: int, l2: int| 0 <= p2 < p ==> !#[trigger] status_at(line@, p2, l2),
        decreases x@.len() - p,
    {
        let lm = run_length(&x, p, CharClass::Letter);
        let mut l = lm;
        while l >= 1
            invariant
                x@ == line@,
                n == x@.len(),
                p < x@.len(),
                l <= lm,
                lm == run_len(line@, p as int, CharClass::Letter),
                p + lm <= x@.len(),
                forall|p2: int, l2: int| 0 <= p2 < p ==> !#[trigger] status_at(line@, p2, l2),
                forall|l2: int| l < l2 ==> !#[trigger] status_at(line@, p as int, l2),
            decreases l,
        {
            if window_ok_exec(&x, p + l) {
                match coords_exec(&x, p + l + 6) {
                    Some(c) => {
                        let name = copy_range(&x, p, p + l);
                        proof {
                            assert(status_at(line@, p as int, l as int));
                            assert forall|p2: int, l2: int| #[trigger]
                                status_at(line@, p2, l2) implies p < p2 || (p == p2 && l2 <= l) by {
                                if p2 < p {
                                    assert(!status_at(line@, p2, l2));
                                } else if p2 == p && l2 > l {
                                    assert(!status_at(line@, p as int, l2));
                                }
                            }
                            lemma_status_pick_unique(line@, p as int, l as int);
                        }
                        let ghost f = status_fields(line@)->0;
                        let px = parse_milli(&c.0);
                        let py = parse_milli(&c.1);
                        let pz = parse_milli(&c.2);
                        match (px, py, pz) {
                            (Some(vx), Some(vy), Some(vz)) => {
                                return Some(
                                    Status { status: string_of(&name), x: vx, y: vy, z: vz },
                                );
                            },
                            _ => {
                                return None;
                            },
                        }
                    },
                    None => {},
                }
            }
            assert(!status_at(line@, p as int, l as int));
            l = l - 1;
        }
        proof {
            assert forall|l2: int| !#[trigger] status_at(line@, p as int, l2) by {
                if l2 < 1 || l2 > lm {
                }
            }
        }
        p = p + 1;
    }
    proof {
        reveal(status_fields);
        assert forall|p2: int, l2: int| !#[trigger] status_at(line@, p2, l2) by {
            if p2 >= x@.len() {
                assert(run_len(line@, p2, CharClass::Letter) == 0);
            }
        }
    }
    None
}

} // verus!
