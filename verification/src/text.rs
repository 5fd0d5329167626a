//! Character-level string helpers shared by the rest of the library:
//! copying, concatenation, substring search, pattern removal and
//! decimal conversion, each stated over the `Seq<char>` view of a string.
use vstd::prelude::*;

verus! {

/// Appends one character to a string (`String::push`).
#[verifier::external_body]
pub(crate) fn push_char(s: &mut String, c: char)
    ensures
        final(s)@ == old(s)@.push(c),
{
    s.push(c);
}

/// The views of a sequence of strings.
pub open spec fn views(v: Seq<String>) -> Seq<Seq<char>> {
    v.map_values(|s: String| s@)
}

/// The texts of a list with one more string.
pub proof fn lemma_views_push(v: Seq<String>, x: String)
    ensures
        views(v.push(x)) == views(v).push(x@),
{
    assert forall|i: int| 0 <= i < v.len() + 1 implies #[trigger] views(v.push(x))[i] == views(v).push(x@)[i] by {
        if i < v.len() {
            assert(v.push(x)[i] == v[i]);
        }
    }
    assert(views(v.push(x)) =~= views(v).push(x@));
}


/// The characters of a string slice, in order.
pub fn chars_of(s: &str) -> (v: Vec<char>)
    ensures
        v@ == s@,
{
    let mut v: Vec<char> = Vec::new();
    for c in it: s.chars()
        invariant
            v@ == it.seq().take(it.index() as int),
            it.seq() == s@,
    {
        v.push(c);
    }
    v
}

/// A string holding exactly the given characters.
pub fn string_of(v: &Vec<char>) -> (s: String)
    ensures
        s@ == v@,
{
    let mut s = String::new();
    for i in 0..v.len()
        invariant
            s@ == v@.take(i as int),
    {
        push_char(&mut s, v[i]);
        assert(v@.take(i + 1) == v@.take(i as int).push(v@[i as int]));
    }
    assert(v@.take(v.len() as int) == v@);
    s
}

/// Appends the characters of `t` to `s`.
pub fn append_str(s: &mut String, t: &str)
    ensures
        final(s)@ == old(s)@ + t@,
{
    let cs = chars_of(t);
    let ghost start = s@;
    for i in 0..cs.len()
        invariant
            cs@ == t@,
            s@ == start + cs@.take(i as int),
    {
        push_char(s, cs[i]);
        assert(cs@.take(i + 1) == cs@.take(i as int).push(cs@[i as int]));
    }
    assert(cs@.take(cs.len() as int) == cs@);
}

/// A fresh string equal to `a` followed by `b`.
pub fn concat(a: &str, b: &str) -> (r: String)
    ensures
        r@ == a@ + b@,
{
    let mut r = String::new();
    append_str(&mut r, a);
    append_str(&mut r, b);
    assert(Seq::<char>::empty() + a@ == a@);
    r
}

/// A copy of a string.
pub fn copy_str(s: &str) -> (r: String)
    ensures
        r@ == s@,
{
    let v = chars_of(s);
    string_of(&v)
}

/// A copy of a vector of strings.
pub fn copy_strings(v: &Vec<String>) -> (r: Vec<String>)
    ensures
        views(r@) == views(v@),
{
    let mut r: Vec<String> = Vec::new();
    for i in 0..v.len()
        invariant
            r@.len() == i,
            forall|k: int| 0 <= k < i ==> #[trigger] r@[k]@ == v@[k]@,
    {
        r.push(copy_str(v[i].as_str()));
    }
    assert(views(r@) =~= views(v@));
    r
}

/// Equality of two string slices by their characters.
pub fn str_eq(a: &str, b: &str) -> (r: bool)
    ensures
        r == (a@ == b@),
{
    let x = chars_of(a);
    let y = chars_of(b);
    if x.len() != y.len() {
        return false;
    }
    for i in 0..x.len()
        invariant
            x@ == a@,
            y@ == b@,
            x@.len() == y@.len(),
            forall|k: int| 0 <= k < i ==> x@[k] == y@[k],
    {
        if x[i] != y[i] {
            return false;
        }
    }
    assert(x@ =~= y@);
    true
}

/// `pat` occurs in `s` starting at position `i`.
pub open spec fn occurs_at(s: Seq<char>, pat: Seq<char>, i: int) -> bool {
    0 <= i && i + pat.len() <= s.len() && s.subrange(i, i + pat.len()) == pat
}

/// `pat` occurs somewhere in `s`.
pub open spec fn contains_seq(s: Seq<char>, pat: Seq<char>) -> bool {
    exists|i: int| occurs_at(s, pat, i)
}

/// Whether `pat` occurs at position `i` of the character vector `s`.
fn matches_at(s: &Vec<char>, pat: &Vec<char>, i: usize) -> (r: bool)
    requires
        i <= s@.len(),
    ensures
        r == occurs_at(s@, pat@, i as int),
{
    if pat.len() > s.len() - i {
        return false;
    }
    let mut k: usize = 0;
    while k < pat.len()
        invariant
            i + pat@.len() <= s@.len(),
            s@.len() <= usize::MAX,
            k <= pat@.len(),
            forall|j: int| 0 <= j < k ==> s@[i + j] == pat@[j],
        decreases pat@.len() - k,
    {
        if s[i + k] != pat[k] {
            assert(s@.subrange(i as int, i + pat@.len())[k as int] != pat@[k as int]);
            return false;
        }
        k = k + 1;
    }
    assert(s@.subrange(i as int, i + pat@.len()) =~= pat@);
    true
}

/// Whether the string `s` contains `pat` as a substring (`str::contains`).
pub fn contains_str(s: &str, pat: &str) -> (r: bool)
    ensures
        r == contains_seq(s@, pat@),
{
    let x = chars_of(s);
    let p = chars_of(pat);
    let mut i: usize = 0;
    loop
        invariant
            x@ == s@,
            p@ == pat@,
            i <= x@.len(),
            forall|j: int| 0 <= j < i ==> !occurs_at(s@, pat@, j),
        decreases x@.len() - i,
    {
        if matches_at(&x, &p, i) {
            return true;
        }
        if i == x.len() {
            assert forall|j: int| !occurs_at(s@, pat@, j) by {
                if 0 <= j && j <= i {
                }
            }
            return false;
        }
        i = i + 1;
    }
}

/// `s` with every occurrence of the non-empty `pat` taken out, scanning from
/// the left and never overlapping (`str::replace(pat, "")`).
pub open spec fn remove_all(s: Seq<char>, pat: Seq<char>) -> Seq<char>
    decreases s.len(),
{
    if pat.len() == 0 || s.len() == 0 {
        s
    } else if s.len() >= pat.len() && s.take(pat.len() as int) == pat {
        remove_all(s.skip(pat.len() as int), pat)
    } else {
        seq![s[0]] + remove_all(s.skip(1), pat)
    }
}

/// Removes every occurrence of `pat` from `s` (`s.replace(pat, "")`).
pub fn remove_all_str(s: &str, pat: &str) -> (r: String)
    ensures
        r@ == remove_all(s@, pat@),
{
    let x = chars_of(s);
    let p = chars_of(pat);
    if p.len() == 0 {
        return copy_str(s);
    }
    let mut out: Vec<char> = Vec::new();
    let mut i: usize = 0;
    assert(x@.skip(0) =~= x@);
    assert(out@ + remove_all(x@, p@) =~= remove_all(x@, p@));
    while i < x.len()
        invariant
            x@ == s@,
            p@ == pat@,
            p@.len() > 0,
            i <= x@.len(),
            out@ + remove_all(x@.skip(i as int), p@) == remove_all(x@, p@),
        decreases x@.len() - i,
    {
        let ghost rest = x@.skip(i as int);
        if matches_at(&x, &p, i) {
            assert(rest.take(p@.len() as int) =~= x@.subrange(i as int, i + p@.len()));
            assert(rest.skip(p@.len() as int) =~= x@.skip(i + p@.len()));
            i = i + p.len();
        } else {
            assert(!(rest.len() >= p@.len() && rest.take(p@.len() as int) == p@)) by {
                if rest.len() >= p@.len() {
                    assert(rest.take(p@.len() as int) =~= x@.subrange(i as int, i + p@.len()));
                }
            }
            assert(rest.skip(1) =~= x@.skip(i + 1));
            assert(out@.push(x@[i as int]) + remove_all(x@.skip(i + 1), p@) =~= out@ + (seq![
                rest[0],
            ] + remove_all(rest.skip(1), p@)));
            out.push(x[i]);
            i = i + 1;
        }
    }
    assert(x@.skip(i as int).len() == 0);
    assert(out@ + x@.skip(i as int) =~= out@);
    string_of(&out)
}


/// `s` ends with `suffix`.
pub open spec fn ends_with_seq(s: Seq<char>, suffix: Seq<char>) -> bool {
    s.len() >= suffix.len() && s.skip(s.len() - suffix.len()) == suffix
}

/// Whether `s` ends with `suffix` (`str::ends_with`).
pub fn ends_with_str(s: &str, suffix: &str) -> (r: bool)
    ensures
        r == ends_with_seq(s@, suffix@),
{
    let x = chars_of(s);
    let p = chars_of(suffix);
    if p.len() > x.len() {
        return false;
    }
    let off = x.len() - p.len();
    let r = matches_at(&x, &p, off);
    assert(x@.subrange(off as int, off + p@.len()) =~= x@.skip(off as int));
    r
}

/// The pieces of `s` between `'\n'` characters (`str::split('\n')`).
pub open spec fn split_newlines(s: Seq<char>) -> Seq<Seq<char>>
    decreases s.len(),
{
    if s.len() == 0 {
        seq![Seq::empty()]
    } else {
        let p = split_newlines(s.drop_last());
        if s.last() == '\n' {
            p.push(Seq::empty())
        } else {
            p.update(p.len() - 1, p.last().push(s.last()))
        }
    }
}

/// A line without one trailing carriage return.
pub open spec fn strip_cr(l: Seq<char>) -> Seq<char> {
    if l.len() > 0 && l.last() == '\r' {
        l.drop_last()
    } else {
        l
    }
}

/// The lines of `s` as `str::lines` gives them: the pieces between `'\n'`,
/// a final empty piece left out, and a `'\r'` before a `'\n'` dropped.
pub open spec fn lines_of(s: Seq<char>) -> Seq<Seq<char>> {
    let p = split_newlines(s);
    let body = if s.len() == 0 || s.last() == '\n' {
        p.drop_last()
    } else {
        p
    };
    Seq::new(
        body.len(),
        |i: int|
            if i < p.len() - 1 {
                strip_cr(p[i])
            } else {
                p[i]
            },
    )
}

proof fn lemma_split_newlines_len(s: Seq<char>)
    ensures
        split_newlines(s).len() >= 1,
    decreases s.len(),
{
    if s.len() > 0 {
        lemma_split_newlines_len(s.drop_last());
    }
}

/// The lines of a text (`str::lines`).
pub fn split_lines(s: &str) -> (r: Vec<String>)
    ensures
        views(r@) == lines_of(s@),
{
    let x = chars_of(s);
    let mut pieces: Vec<Vec<char>> = Vec::new();
    let mut cur: Vec<char> = Vec::new();
    let mut i: usize = 0;
    while i < x.len()
        invariant
            x@ == s@,
            i <= x@.len(),
            pieces@.map_values(|v: Vec<char>| v@).push(cur@) == split_newlines(x@.take(i as int)),
        decreases x@.len() - i,
    {
        let ghost before = pieces@.map_values(|v: Vec<char>| v@).push(cur@);
        proof {
            assert(x@.take(i + 1).drop_last() =~= x@.take(i as int));
            assert(x@.take(i + 1).last() == x@[i as int]);
        }
        if x[i] == '\n' {
            let done = cur;
            pieces.push(done);
            cur = Vec::new();
            assert(pieces@.map_values(|v: Vec<char>| v@).push(cur@) =~= before.push(Seq::empty()));
        } else {
            cur.push(x[i]);
            assert(pieces@.map_values(|v: Vec<char>| v@).push(cur@) =~= before.update(
                before.len() - 1,
                before.last().push(x@[i as int]),
            ));
        }
        i = i + 1;
    }
    proof {
        assert(x@.take(i as int) =~= s@);
        lemma_split_newlines_len(s@);
    }
    let ghost p = split_newlines(s@);
    let ends_open = x.len() > 0 && x[x.len() - 1] != '\n';
    if ends_open {
        pieces.push(cur);
    }
    let ghost body_len: int = if s@.len() == 0 || s@.last() == '\n' {
        p.len() - 1
    } else {
        p.len() as int
    };
    assert(pieces@.len() == body_len);
    assert(forall|k: int| 0 <= k < pieces@.len() ==> #[trigger] pieces@[k]@ == p[k]) by {
        assert forall|k: int| 0 <= k < pieces@.len() implies #[trigger] pieces@[k]@ == p[k] by {
            if ends_open {
                if k < pieces@.len() - 1 {
                    assert(pieces@.drop_last().map_values(|v: Vec<char>| v@)[k] == p[k]);
                }
            } else {
                assert(pieces@.map_values(|v: Vec<char>| v@)[k] == p[k]);
            }
        }
    }
    let mut out: Vec<String> = Vec::new();
    let np = pieces.len();
    for k in 0..np
        invariant
            np == pieces@.len(),
            np == body_len,
            p == split_newlines(s@),
            p.len() >= 1,
            p.len() == if ends_open {
                np as int
            } else {
                np + 1
            },
            forall|j: int| 0 <= j < pieces@.len() ==> #[trigger] pieces@[j]@ == p[j],
            out@.len() == k,
            forall|j: int|
                0 <= j < k ==> #[trigger] out@[j]@ == if j < p.len() - 1 {
                    strip_cr(p[j])
                } else {
                    p[j]
                },
    {
        let piece = &pieces[k];
        let followed = !ends_open || k + 1 < np;
        assert(followed == (k < p.len() - 1));
        let strip = followed && piece.len() > 0 && piece[piece.len() - 1] == '\r';
        let n = if strip {
            piece.len() - 1
        } else {
            piece.len()
        };
        let mut line: Vec<char> = Vec::new();
        let mut j: usize = 0;
        while j < n
            invariant
                n <= piece@.len(),
                j <= n,
                line@ == piece@.take(j as int),
            decreases n - j,
        {
            line.push(piece[j]);
            assert(line@ =~= piece@.take(j + 1));
            j = j + 1;
        }
        proof {
            if strip {
                assert(line@ =~= piece@.drop_last());
            } else {
                assert(line@ =~= piece@);
            }
        }
        out.push(string_of(&line));
    }
    assert(views(out@) =~= lines_of(s@));
    out
}

/// Whether `c` is an ASCII decimal digit.
pub open spec fn is_digit_char(c: char) -> bool {
    '0' <= c && c <= '9'
}

/// The numeric value of a decimal digit character.
pub open spec fn digit_value(c: char) -> int {
    c as int - '0' as int
}

/// Every character of `s` is a decimal digit.
pub open spec fn all_digits(s: Seq<char>) -> bool {
    forall|i: int| 0 <= i < s.len() ==> is_digit_char(#[trigger] s[i])
}

/// The value of a string of decimal digits (most significant first).
pub open spec fn decimal_value(s: Seq<char>) -> nat
    decreases s.len(),
{
    if s.len() == 0 {
        0
    } else {
        (decimal_value(s.drop_last()) * 10 + digit_value(s.last())) as nat
    }
}

/// The digits part of an unsigned number as `str::parse` reads it: one
/// optional leading `+` is dropped.
pub open spec fn unsigned_digits(s: Seq<char>) -> Seq<char> {
    if s.len() > 0 && s[0] == '+' {
        s.skip(1)
    } else {
        s
    }
}

/// What `str::parse::<T>()` gives for an unsigned integer type whose largest
/// value is `max`: the value when the text is an optional `+` followed by one
/// or more digits and the value is at most `max`, else nothing.
pub open spec fn parse_unsigned(s: Seq<char>, max: int) -> Option<nat> {
    let d = unsigned_digits(s);
    if d.len() > 0 && all_digits(d) && decimal_value(d) <= max {
        Some(decimal_value(d))
    } else {
        None
    }
}

pub proof fn lemma_decimal_value_prefix_le(s: Seq<char>, i: int)
    requires
        0 <= i <= s.len(),
        all_digits(s),
    ensures
        decimal_value(s.take(i)) <= decimal_value(s),
    decreases s.len() - i,
{
    if i < s.len() {
        lemma_decimal_value_prefix_le(s, i + 1);
        assert(s.take(i + 1).drop_last() =~= s.take(i));
        assert(is_digit_char(s[i]));
    } else {
        assert(s.take(i) =~= s);
    }
}

/// Reads an unsigned decimal number as `str::parse::<u128>()` does.
pub fn parse_u128(s: &str) -> (r: Option<u128>)
    ensures
        r == (match parse_unsigned(s@, u128::MAX as int) {
            Some(v) => Some(v as u128),
            None => None::<u128>,
        }),
{
    let x = chars_of(s);
    let start: usize = if x.len() > 0 && x[0] == '+' {
        1
    } else {
        0
    };
    let ghost d = unsigned_digits(s@);
    assert(d =~= x@.skip(start as int));
    if start >= x.len() {
        return None;
    }
    let mut acc: u128 = 0;
    let mut i = start;
    while i < x.len()
        invariant
            x@ == s@,
            d == unsigned_digits(s@),
            d == x@.skip(start as int),
            start <= i <= x@.len(),
            all_digits(d.take(i - start)),
            acc as int == decimal_value(d.take(i - start)),
        decreases x@.len() - i,
    {
        let c = x[i];
        assert(d[i - start] == c);
        assert(d.take(i - start + 1).drop_last() =~= d.take(i - start));
        if !('0' <= c && c <= '9') {
            assert(!is_digit_char(d[i - start]));
            assert(!all_digits(d));
            assert(unsigned_digits(s@) == d);
            assert(parse_unsigned(s@, u128::MAX as int) is None);
            return None;
        }
        let dv: u128 = (c as u32 - '0' as u32) as u128;
        let next = match acc.checked_mul(10) {
            Some(m) => m.checked_add(dv),
            None => None,
        };
        match next {
            Some(v) => {
                acc = v;
            },
            None => {
                assert(decimal_value(d.take(i - start + 1)) > u128::MAX);
                assert(all_digits(d.take(i - start + 1)));
                proof {
                    if all_digits(d) {
                        lemma_decimal_value_prefix_le(d, i - start + 1);
                        assert(decimal_value(d) > u128::MAX);
                    }
                }
                assert(parse_unsigned(s@, u128::MAX as int) is None);
                return None;
            },
        }
        i = i + 1;
    }
    assert(d.take(i - start) =~= d);
    Some(acc)
}

/// Reads an unsigned decimal number as `str::parse::<usize>()` does.
pub fn parse_usize(s: &str) -> (r: Option<usize>)
    ensures
        r == (match parse_unsigned(s@, usize::MAX as int) {
            Some(v) => Some(v as usize),
            None => None::<usize>,
        }),
{
    match parse_u128(s) {
        Some(v) => {
            if v <= usize::MAX as u128 {
                Some(v as usize)
            } else {
                None
            }
        },
        None => {
            None
        },
    }
}

/// The decimal digits of `n`, most significant first, without leading zeros
/// (`"0"` for zero).
pub open spec fn decimal_digits(n: nat) -> Seq<char>
    decreases n,
{
    if n < 10 {
        seq![('0' as u32 + n) as char]
    } else {
        decimal_digits(n / 10).push(('0' as u32 + (n % 10)) as char)
    }
}


/// Three digits of a fraction in thousandths (`f < 1000`).
pub open spec fn three_digits(f: nat) -> Seq<char> {
    seq![
        ('0' as u32 + f / 100) as char,
        ('0' as u32 + (f / 10) % 10) as char,
        ('0' as u32 + f % 10) as char,
    ]
}

/// The sign of a value in text: `-` for a negative one.
pub open spec fn sign_text(v: int) -> Seq<char> {
    if v < 0 {
        seq!['-']
    } else {
        Seq::empty()
    }
}

/// The magnitude of a value.
pub open spec fn magnitude(v: int) -> nat {
    if v < 0 {
        (-v) as nat
    } else {
        v as nat
    }
}

/// A value given in thousandths, written with exactly three decimals
/// (`{:.3}`).
pub open spec fn milli_fixed3(v: int) -> Seq<char> {
    sign_text(v) + decimal_digits(magnitude(v) / 1000) + seq!['.'] + three_digits(magnitude(v) % 1000)
}

/// The decimals of a fraction in thousandths without trailing zeros.
pub open spec fn trimmed_decimals(f: nat) -> Seq<char> {
    if f % 100 == 0 {
        three_digits(f).take(1)
    } else if f % 10 == 0 {
        three_digits(f).take(2)
    } else {
        three_digits(f)
    }
}

/// A value given in thousandths, written as briefly as it can be: no
/// decimal point for a whole number, no trailing zeros otherwise.
pub open spec fn milli_short(v: int) -> Seq<char> {
    let m = magnitude(v);
    sign_text(v) + decimal_digits(m / 1000) + if m % 1000 == 0 {
        Seq::empty()
    } else {
        seq!['.'] + trimmed_decimals(m % 1000)
    }
}

fn magnitude_u64(v: i64) -> (r: u64)
    ensures
        r as int == magnitude(v as int),
{
    if v < 0 {
        (0i128 - v as i128) as u64
    } else {
        v as u64
    }
}

/// Writes a value given in thousandths with exactly three decimals.
pub fn format_milli_fixed3(v: i64) -> (r: String)
    ensures
        r@ == milli_fixed3(v as int),
{
    let m = magnitude_u64(v);
    let mut r = String::new();
    if v < 0 {
        push_char(&mut r, '-');
    }
    let ip = format_u64(m / 1000);
    append_str(&mut r, ip.as_str());
    push_char(&mut r, '.');
    let f = m % 1000;
    push_char(&mut r, char_of_digit(f / 100));
    push_char(&mut r, char_of_digit((f / 10) % 10));
    push_char(&mut r, char_of_digit(f % 10));
    assert(r@ =~= milli_fixed3(v as int));
    r
}

/// Writes a value given in thousandths as briefly as it can be.
pub fn format_milli_short(v: i64) -> (r: String)
    ensures
        r@ == milli_short(v as int),
{
    let m = magnitude_u64(v);
    let mut r = String::new();
    if v < 0 {
        push_char(&mut r, '-');
    }
    let ip = format_u64(m / 1000);
    append_str(&mut r, ip.as_str());
    let f = m % 1000;
    let ghost head = r@;
    if f != 0 {
        push_char(&mut r, '.');
        push_char(&mut r, char_of_digit(f / 100));
        if f % 100 != 0 {
            push_char(&mut r, char_of_digit((f / 10) % 10));
            if f % 10 != 0 {
                push_char(&mut r, char_of_digit(f % 10));
            }
        }
        assert(r@ =~= head + (seq!['.'] + trimmed_decimals(f as nat)));
    } else {
        assert(r@ =~= head + Seq::<char>::empty());
    }
    r
}

/// Writes `n` in decimal (`n.to_string()`).
pub fn format_u64(n: u64) -> (r: String)
    ensures
        r@ == decimal_digits(n as nat),
    decreases n,
{
    if n < 10 {
        let mut s = String::new();
        let c = char_of_digit(n);
        push_char(&mut s, c);
        assert(s@ =~= decimal_digits(n as nat));
        s
    } else {
        let mut s = format_u64(n / 10);
        let c = char_of_digit(n % 10);
        push_char(&mut s, c);
        s
    }
}

/// The character of a decimal digit.
pub fn char_of_digit(d: u64) -> (c: char)
    requires
        d < 10,
    ensures
        c == ('0' as u32 + d) as char,
{
    if d == 0 {
        '0'
    } else if d == 1 {
        '1'
    } else if d == 2 {
        '2'
    } else if d == 3 {
        '3'
    } else if d == 4 {
        '4'
    } else if d == 5 {
        '5'
    } else if d == 6 {
        '6'
    } else if d == 7 {
        '7'
    } else if d == 8 {
        '8'
    } else {
        '9'
    }
}

} // verus!
