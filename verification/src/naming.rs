//! Fresh names for new entries: the base name, or the base name numbered
//! with the first free number from 2 on.
use vstd::prelude::*;
use vstd::set_lib::{lemma_int_range, lemma_len_subset, set_int_range};
use crate::text::{append_str, copy_str, decimal_digits, decimal_value, digit_value, format_u64, str_eq, views};

verus! {

/// Whether `name` is among `names`.
pub fn contains_name(names: &Vec<String>, name: &str) -> (r: bool)
    ensures
        r == views(names@).contains(name@),
{
    for i in 0..names.len()
        invariant
            forall|k: int| 0 <= k < i ==> names@[k]@ != name@,
    {
        if str_eq(names[i].as_str(), name) {
            assert(views(names@)[i as int] == name@);
            return true;
        }
    }
    proof {
        if views(names@).contains(name@) {
            let k = choose|k: int| 0 <= k < views(names@).len() && views(names@)[k] == name@;
            assert(names@[k]@ == name@);
        }
    }
    false
}

/// The base name numbered `k`: `base #k`.
pub open spec fn numbered(base: Seq<char>, k: nat) -> Seq<char> {
    base + seq![' ', '#'] + decimal_digits(k)
}

/// Whether `k` is the first number from 2 on whose numbered name is free.
pub open spec fn first_free(names: Seq<Seq<char>>, base: Seq<char>, k: nat) -> bool {
    &&& k >= 2
    &&& !names.contains(numbered(base, k))
    &&& forall|j: nat| 2 <= j < k ==> names.contains(#[trigger] numbered(base, j))
}

/// Whether `r` is the fresh name for `base` among `names`: the base name
/// where it is free, else the base name with the first free number.
pub open spec fn fresh_name_of(names: Seq<Seq<char>>, base: Seq<char>, r: Seq<char>) -> bool {
    if !names.contains(base) {
        r == base
    } else {
        exists|k: nat| first_free(names, base, k) && r == numbered(base, k)
    }
}

/// The fresh name for `base` among `names`.
pub open spec fn fresh(names: Seq<Seq<char>>, base: Seq<char>) -> Seq<char> {
    choose|r: Seq<char>| fresh_name_of(names, base, r)
}

/// At most one number is the first free one, so `fresh_name_of` holds of one
/// name only.
pub proof fn lemma_first_free_unique(names: Seq<Seq<char>>, base: Seq<char>, k1: nat, k2: nat)
    requires
        first_free(names, base, k1),
        first_free(names, base, k2),
    ensures
        k1 == k2,
{
    if k1 < k2 {
        assert(names.contains(numbered(base, k1)));
    } else if k2 < k1 {
        assert(names.contains(numbered(base, k2)));
    }
}

/// Reading back the digits of `n` gives `n`.
pub proof fn lemma_digits_value(n: nat)
    ensures
        decimal_value(decimal_digits(n)) == n,
    decreases n,
{
    if n < 10 {
        let c = ('0' as u32 + n) as char;
        assert(digit_value(c) == n);
        assert(decimal_digits(n).drop_last() =~= Seq::<char>::empty());
        assert(decimal_digits(n).last() == c);
        assert(decimal_value(decimal_digits(n)) == decimal_value(Seq::<char>::empty()) * 10 + digit_value(c));
    } else {
        lemma_digits_value(n / 10);
        let c = ('0' as u32 + (n % 10)) as char;
        assert(digit_value(c) == n % 10);
        assert(decimal_digits(n).drop_last() =~= decimal_digits(n / 10));
        assert(decimal_digits(n).last() == c);
        assert(decimal_value(decimal_digits(n)) == decimal_value(decimal_digits(n / 10)) * 10 + digit_value(c));
        assert((n / 10) * 10 + n % 10 == n);
    }
}

/// The number a numbered name carries (0 for other names).
pub open spec fn number_of(base: Seq<char>, name: Seq<char>) -> int {
    if name.len() >= base.len() + 2 {
        decimal_value(name.subrange(base.len() + 2int, name.len() as int)) as int
    } else {
        0
    }
}

/// Not every number from 2 to `names.len() + 2` can be taken: each name
/// carries at most one number.
proof fn lemma_some_number_free(names: Seq<Seq<char>>, base: Seq<char>)
    ensures
        !(forall|j: nat| 2 <= j < names.len() + 3 ==> names.contains(#[trigger] numbered(base, j))),
{
    if forall|j: nat| 2 <= j < names.len() + 3 ==> names.contains(#[trigger] numbered(base, j)) {
        let vals = names.map_values(|nm: Seq<char>| number_of(base, nm));
        let range = set_int_range(2, names.len() + 3int);
        assert forall|j: int| range.contains(j) implies vals.to_set().contains(j) by {
            let jn = j as nat;
            assert(names.contains(numbered(base, jn)));
            let i = choose|i: int| 0 <= i < names.len() && names[i] == numbered(base, jn);
            assert(names[i].subrange(base.len() + 2int, names[i].len() as int) =~= decimal_digits(jn));
            lemma_digits_value(jn);
            assert(vals[i] == j);
        }
        lemma_int_range(2, names.len() + 3int);
        vals.lemma_cardinality_of_set();
        lemma_len_subset(range, vals.to_set());
    }
}

/// A fresh name for a new entry whose base name is `base`, as
/// `fresh_name_of` says.
pub fn fresh_name(names: &Vec<String>, base: &str) -> (r: String)
    requires
        names@.len() + 3 <= usize::MAX,
    ensures
        fresh_name_of(views(names@), base@, r@),
        r@ == fresh(views(names@), base@),
{
    if !contains_name(names, base) {
        let r = copy_str(base);
        assert(fresh_name_of(views(names@), base@, r@));
        return r;
    }
    let ghost ns = views(names@);
    let len = names.len();
    let mut k: usize = 2;
    let mut candidate = copy_str(base);
    append_str(&mut candidate, " #");
    append_str(&mut candidate, format_u64(2).as_str());
    proof {
        reveal_strlit(" #");
        assert(candidate@ =~= numbered(base@, 2));
    }
    while contains_name(names, candidate.as_str())
        invariant
            ns == views(names@),
            len == names@.len(),
            len + 3 <= usize::MAX,
            2 <= k,
            candidate@ == numbered(base@, k as nat),
            forall|j: nat| 2 <= j < k ==> ns.contains(#[trigger] numbered(base@, j)),
        decreases len + 3 - k,
    {
        proof {
            if k >= len + 2 {
                assert forall|j: nat| 2 <= j < len + 3 implies ns.contains(
                    #[trigger] numbered(base@, j),
                ) by {
                    if j == k {
                    }
                }
                lemma_some_number_free(ns, base@);
            }
        }
        k = k + 1;
        candidate = copy_str(base);
        append_str(&mut candidate, " #");
        append_str(&mut candidate, format_u64(k as u64).as_str());
        proof {
            reveal_strlit(" #");
            assert(candidate@ =~= numbered(base@, k as nat));
        }
    }
    assert(first_free(ns, base@, k as nat));
    proof {
        assert(fresh_name_of(ns, base@, candidate@));
        let c = fresh(ns, base@);
        assert(fresh_name_of(ns, base@, c));
        let k2 = choose|k2: nat| first_free(ns, base@, k2) && c == numbered(base@, k2);
        lemma_first_free_unique(ns, base@, k as nat, k2);
    }
    candidate
}

/// Scanning from `k` on, where every number from 2 below `k` is taken and
/// `free` is not, finds the first free number.
proof fn lemma_first_free_exists(names: Seq<Seq<char>>, base: Seq<char>, k: nat, free: nat)
    requires
        2 <= k <= free,
        !names.contains(numbered(base, free)),
        forall|j: nat| 2 <= j < k ==> names.contains(#[trigger] numbered(base, j)),
    ensures
        exists|f: nat| first_free(names, base, f),
    decreases free - k,
{
    if !names.contains(numbered(base, k)) {
        assert(first_free(names, base, k));
    } else {
        assert forall|j: nat| 2 <= j < k + 1 implies names.contains(#[trigger] numbered(base, j)) by {
            if j == k {
            }
        }
        lemma_first_free_exists(names, base, k + 1, free);
    }
}

/// A fresh name is new: it is none of the names it was made for, and it is
/// the base name itself where that is free.
pub proof fn lemma_fresh_is_new(names: Seq<Seq<char>>, base: Seq<char>)
    ensures
        !names.contains(fresh(names, base)),
        !names.contains(base) ==> fresh(names, base) == base,
{
    if !names.contains(base) {
        assert(fresh_name_of(names, base, base));
    } else {
        lemma_some_number_free(names, base);
        let free = choose|j: nat| 2 <= j < names.len() + 3 && !names.contains(#[trigger] numbered(base, j));
        lemma_first_free_exists(names, base, 2, free);
        let f = choose|f: nat| first_free(names, base, f);
        assert(fresh_name_of(names, base, numbered(base, f)));
        let c = fresh(names, base);
        let k2 = choose|k2: nat| first_free(names, base, k2) && c == numbered(base, k2);
        lemma_first_free_unique(names, base, f, k2);
    }
}

} // verus!
