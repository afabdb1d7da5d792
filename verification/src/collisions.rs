//! Finding a free name by counting.
//!
//! When a path is taken, the next candidates carry an index: the stem, a
//! space, and the index between brackets. However many paths exist, counting
//! up from 1 reaches a free one, because the candidates all differ and the
//! existing paths are finitely many.

use vstd::prelude::*;
use crate::text::{append, copy_string, decimal, digit_char};

verus! {

/// The value of a decimal digit.
pub open spec fn digit_value(c: char) -> nat {
    if c == '0' {
        0
    } else if c == '1' {
        1
    } else if c == '2' {
        2
    } else if c == '3' {
        3
    } else if c == '4' {
        4
    } else if c == '5' {
        5
    } else if c == '6' {
        6
    } else if c == '7' {
        7
    } else if c == '8' {
        8
    } else {
        9
    }
}

/// Whether a character is one of `0` to `9`.
pub open spec fn is_digit(c: char) -> bool {
    c == '0' || c == '1' || c == '2' || c == '3' || c == '4' || c == '5' || c == '6' || c == '7'
        || c == '8' || c == '9'
}

/// The number that a string of decimal digits spells.
pub open spec fn decimal_value(s: Seq<char>) -> nat
    decreases s.len(),
{
    if s.len() == 0 {
        0
    } else {
        decimal_value(s.drop_last()) * 10 + digit_value(s.last())
    }
}

/// A number in decimal is a non-empty string of digits that spells it.
pub proof fn lemma_decimal(n: nat)
    ensures
        decimal(n).len() >= 1,
        forall|i: int| 0 <= i < decimal(n).len() ==> is_digit(#[trigger] decimal(n)[i]),
        decimal_value(decimal(n)) == n,
    decreases n,
{
    if n < 10 {
        assert(decimal(n).drop_last() =~= Seq::<char>::empty());
        assert(decimal(n).last() == digit_char(n));
        assert(decimal_value(Seq::<char>::empty()) == 0);
        assert(digit_value(digit_char(n)) == n);
    } else {
        lemma_decimal(n / 10);
        let front = decimal(n / 10);
        assert(decimal(n).drop_last() =~= front);
        assert(decimal(n).last() == digit_char(n % 10));
        assert forall|i: int| 0 <= i < decimal(n).len() implies is_digit(
            #[trigger] decimal(n)[i],
        ) by {
            if i < front.len() {
                assert(decimal(n)[i] == front[i]);
            }
        }
    }
}

/// The name that stands in for `stem` and `ext` at index `index`: the stem,
/// a space, the index between `open` and `close`, and the extension after a
/// dot where there is one.
pub open spec fn numbered_name(
    stem: Seq<char>,
    open: char,
    close: char,
    index: nat,
    ext: Seq<char>,
) -> Seq<char> {
    let head = stem + seq![' ', open] + decimal(index) + seq![close];
    if ext.len() == 0 {
        head
    } else {
        head + seq!['.'] + ext
    }
}

/// Names for different indices differ.
pub proof fn lemma_numbered_names_differ(
    stem: Seq<char>,
    open: char,
    close: char,
    ext: Seq<char>,
    a: nat,
    b: nat,
)
    requires
        numbered_name(stem, open, close, a, ext) == numbered_name(stem, open, close, b, ext),
    ensures
        a == b,
{
    lemma_decimal(a);
    lemma_decimal(b);
    let na = numbered_name(stem, open, close, a, ext);
    let nb = numbered_name(stem, open, close, b, ext);
    let da = decimal(a);
    let db = decimal(b);
    assert(na.len() == nb.len());
    assert(da.len() == db.len());
    assert forall|i: int| 0 <= i < da.len() implies da[i] == db[i] by {
        assert(na[stem.len() + 2 + i] == da[i]);
        assert(nb[stem.len() + 2 + i] == db[i]);
    }
    assert(da =~= db);
}

/// Builds the name for an index.
pub fn indexed_name(stem: &str, open: char, close: char, index: u128, ext: &str) -> (name: String)
    ensures
        name@ == numbered_name(stem@, open, close, index as nat, ext@),
{
    let mut name = copy_string(stem);
    name.push(' ');
    name.push(open);
    assert(name@ =~= stem@ + seq![' ', open]);
    crate::text::push_decimal(&mut name, index);
    name.push(close);
    assert(name@ =~= stem@ + seq![' ', open] + decimal(index as nat) + seq![close]);
    let e = crate::text::chars_of(ext);
    if e.len() > 0 {
        name.push('.');
        append(&mut name, ext);
        assert(name@ =~= stem@ + seq![' ', open] + decimal(index as nat) + seq![close] + seq!['.']
            + ext@);
    }
    name
}

/// Joining two names that begin alike to one directory gives different
/// paths for different names.
pub proof fn lemma_joined_differ(dir: Seq<char>, a: Seq<char>, b: Seq<char>)
    requires
        a.len() > 0,
        b.len() > 0,
        a[0] == b[0],
        crate::paths::joined(dir, a) == crate::paths::joined(dir, b),
    ensures
        a == b,
{
    if a[0] == '/' || dir.len() == 0 {
        assert(crate::paths::joined(dir, a) == a && crate::paths::joined(dir, b) == b);
    } else {
        let p = if dir.last() == '/' {
            dir
        } else {
            dir + seq!['/']
        };
        assert(crate::paths::joined(dir, a) =~= p + a);
        assert(crate::paths::joined(dir, b) =~= p + b);
        assert(a.len() == b.len());
        assert forall|i: int| 0 <= i < a.len() implies a[i] == b[i] by {
            assert((p + a)[p.len() + i] == a[i]);
            assert((p + b)[p.len() + i] == b[i]);
        }
        assert(a =~= b);
    }
}

/// Whether `index` is the first index whose candidate is free.
pub open spec fn is_first_free(
    slots: spec_fn(nat) -> Seq<char>,
    occupied: Seq<Seq<char>>,
    index: nat,
) -> bool {
    &&& !occupied.contains(slots(index))
    &&& forall|j: nat| j < index ==> occupied.contains(#[trigger] slots(j))
}

/// The first index whose candidate is free.
pub open spec fn first_free(slots: spec_fn(nat) -> Seq<char>, occupied: Seq<Seq<char>>) -> nat {
    choose|k: nat| is_first_free(slots, occupied, k)
}

/// Whether the candidates from index 1 on all differ.
pub open spec fn all_differ(slots: spec_fn(nat) -> Seq<char>) -> bool {
    forall|a: nat, b: nat| a >= 1 && b >= 1 && #[trigger] slots(a) == #[trigger] slots(b) ==> a == b
}

/// The candidates at indices 1 to `n`.
pub open spec fn slots_upto(slots: spec_fn(nat) -> Seq<char>, n: nat) -> Set<Seq<char>>
    decreases n,
{
    if n == 0 {
        Set::empty()
    } else {
        slots_upto(slots, (n - 1) as nat).insert(slots(n))
    }
}

/// There are `n` candidates at indices 1 to `n`.
pub proof fn lemma_slots_counted(slots: spec_fn(nat) -> Seq<char>, n: nat)
    requires
        all_differ(slots),
    ensures
        slots_upto(slots, n).finite(),
        slots_upto(slots, n).len() == n,
        forall|x: Seq<char>|
            slots_upto(slots, n).contains(x) <==> exists|k: nat|
                1 <= k <= n && x == #[trigger] slots(k),
    decreases n,
{
    if n > 0 {
        let m = (n - 1) as nat;
        lemma_slots_counted(slots, m);
        let fresh = slots(n);
        if slots_upto(slots, m).contains(fresh) {
            let k = choose|k: nat| 1 <= k <= m && fresh == #[trigger] slots(k);
            assert(slots(k) == slots(n));
        }
        assert forall|x: Seq<char>| slots_upto(slots, n).contains(x) implies exists|k: nat|
            1 <= k <= n && x == #[trigger] slots(k) by {
            if x == fresh {
                assert(x == slots(n));
            } else {
                let k = choose|k: nat| 1 <= k <= m && x == #[trigger] slots(k);
                assert(1 <= k <= n && x == slots(k));
            }
        }
        assert forall|x: Seq<char>|
            (exists|k: nat| 1 <= k <= n && x == #[trigger] slots(k)) implies slots_upto(
            slots,
            n,
        ).contains(x) by {
            let k = choose|k: nat| 1 <= k <= n && x == #[trigger] slots(k);
            if k < n {
                assert(1 <= k <= m && x == slots(k));
            }
        }
    }
}

/// Among the first `occupied.len() + 2` indices one is free.
pub proof fn lemma_some_slot_is_free(slots: spec_fn(nat) -> Seq<char>, occupied: Seq<Seq<char>>)
    requires
        all_differ(slots),
    ensures
        exists|k: nat| k <= occupied.len() + 1 && !occupied.contains(#[trigger] slots(k)),
{
    let n = (occupied.len() + 1) as nat;
    if forall|k: nat| k <= n ==> occupied.contains(#[trigger] slots(k)) {
        lemma_slots_counted(slots, n);
        let tried = slots_upto(slots, n);
        let taken = occupied.to_set();
        assert forall|x: Seq<char>| tried.contains(x) implies taken.contains(x) by {
            let k = choose|k: nat| 1 <= k <= n && x == #[trigger] slots(k);
            assert(occupied.contains(slots(k)));
        }
        assert(tried.subset_of(taken));
        occupied.lemma_cardinality_of_set();
        vstd::set_lib::lemma_len_subset(tried, taken);
        assert(false);
    }
}

/// Where some index up to `bound` is free, there is a first free index.
pub proof fn lemma_first_free_below(
    slots: spec_fn(nat) -> Seq<char>,
    occupied: Seq<Seq<char>>,
    bound: nat,
)
    requires
        !occupied.contains(slots(bound)),
    ensures
        exists|k: nat| k <= bound && is_first_free(slots, occupied, k),
    decreases bound,
{
    if forall|j: nat| j < bound ==> occupied.contains(#[trigger] slots(j)) {
        assert(is_first_free(slots, occupied, bound));
    } else {
        let j = choose|j: nat| j < bound && !occupied.contains(#[trigger] slots(j));
        lemma_first_free_below(slots, occupied, j);
        let k = choose|k: nat| k <= j && is_first_free(slots, occupied, k);
        assert(k <= bound && is_first_free(slots, occupied, k));
    }
}

/// Whatever is taken, counting finds a free candidate: there is a first
/// free index, and it is at most one more than the number of taken paths.
pub proof fn lemma_first_free(slots: spec_fn(nat) -> Seq<char>, occupied: Seq<Seq<char>>)
    requires
        all_differ(slots),
    ensures
        is_first_free(slots, occupied, first_free(slots, occupied)),
        first_free(slots, occupied) <= occupied.len() + 1,
{
    lemma_some_slot_is_free(slots, occupied);
    let b = choose|k: nat| k <= occupied.len() + 1 && !occupied.contains(#[trigger] slots(k));
    lemma_first_free_below(slots, occupied, b);
    let k = choose|k: nat| k <= b && is_first_free(slots, occupied, k);
    assert(is_first_free(slots, occupied, k));
    let f = first_free(slots, occupied);
    assert(is_first_free(slots, occupied, f));
    if f > k {
        assert(occupied.contains(slots(k)));
    }
}

} // verus!
