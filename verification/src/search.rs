//! Reading what a user typed into a search box, and what a catalog put
//! into a file name.

use vstd::prelude::*;
use crate::collisions::{decimal_value, is_digit};
use crate::paths::{last_index_of, rfind_char};
use crate::records::opt_view;
use crate::text::{
    chars_of, find_part, first_part, has_part, lemma_first_part, lowercase, string_of_range,
    to_lowercase, trim_bounds, trimmed, until_part,
};

verus! {

/// A query split at a separator: the title before it and the author after
/// it, both trimmed. The separator is looked for in the lower-case copy of
/// the query and the query is cut at the position found there. Nothing
/// where the separator does not occur or no title is left.
pub open spec fn split_query(
    original: Seq<char>,
    lowered: Seq<char>,
    needle: Seq<char>,
) -> Option<(Seq<char>, Option<Seq<char>>)> {
    if !has_part(lowered, needle) {
        None
    } else {
        let i = first_part(lowered, needle);
        let cut = if i <= original.len() {
            i
        } else {
            original.len() as int
        };
        let resume = if i + needle.len() <= original.len() {
            i + needle.len()
        } else {
            original.len() as int
        };
        let title = trimmed(original.subrange(0, cut));
        let author = trimmed(original.subrange(resume, original.len() as int));
        if title.len() == 0 {
            None
        } else if author.len() == 0 {
            Some((title, None))
        } else {
            Some((title, Some(author)))
        }
    }
}

/// View of a split query.
pub open spec fn query_view(r: Option<(String, Option<String>)>) -> Option<
    (Seq<char>, Option<Seq<char>>),
> {
    match r {
        Some((title, author)) => Some((title@, opt_view(author))),
        None => None,
    }
}

/// The string spelled by the trimmed part of `v[from..to]`.
fn trimmed_range(v: &Vec<char>, from: usize, to: usize) -> (r: String)
    requires
        from <= to <= v.len(),
    ensures
        r@ == trimmed(v@.subrange(from as int, to as int)),
{
    let part = chars_of(string_of_range(v, from, to).as_str());
    let (a, b) = trim_bounds(&part);
    string_of_range(&part, a, b)
}

/// Splits a query at the first occurrence of `needle` in its lower-case
/// copy into title and author.
pub fn split_search_query(original: &str, lowered: &str, needle: &str) -> (r: Option<
    (String, Option<String>),
>)
    ensures
        query_view(r) == split_query(original@, lowered@, needle@),
{
    let o = chars_of(original);
    let l = chars_of(lowered);
    let n = chars_of(needle);
    let i = match find_part(&l, &n) {
        None => {
            return None;
        },
        Some(i) => i,
    };
    proof {
        lemma_first_part(l@, n@, i as int);
    }
    let cut = if i <= o.len() {
        i
    } else {
        o.len()
    };
    let resume = if n.len() <= o.len() && i <= o.len() - n.len() {
        i + n.len()
    } else {
        o.len()
    };
    let title = trimmed_range(&o, 0, cut);
    let author = trimmed_range(&o, resume, o.len());
    if chars_of(title.as_str()).len() == 0 {
        return None;
    }
    if chars_of(author.as_str()).len() == 0 {
        Some((title, None))
    } else {
        Some((title, Some(author)))
    }
}

/// A query read as "title by author" or "title - author", in any letter
/// case; the whole query as the title where it reads as neither.
pub open spec fn parsed_query(query: Seq<char>) -> (Seq<char>, Option<Seq<char>>) {
    match split_query(query, lowercase(query), " by "@) {
        Some(r) => r,
        None => match split_query(query, lowercase(query), " - "@) {
            Some(r) => r,
            None => (query, None),
        },
    }
}

/// Reads a query as a title and, where one is given, an author.
pub fn parse_search_query(query: &str) -> (r: (String, Option<String>))
    ensures
        (r.0@, opt_view(r.1)) == parsed_query(query@),
{
    let lowered = to_lowercase(query);
    match split_search_query(query, lowered.as_str(), " by ") {
        Some(r) => r,
        None => match split_search_query(query, lowered.as_str(), " - ") {
            Some(r) => r,
            None => (crate::text::copy_string(query), None),
        },
    }
}

/// Whether every character of `s` is a decimal digit.
pub open spec fn all_digits(s: Seq<char>) -> bool {
    forall|i: int| 0 <= i < s.len() ==> is_digit(#[trigger] s[i])
}

/// The number that `s` spells: decimal digits, at least one, after an
/// optional plus sign, and no more than fits thirty-two bits.
pub open spec fn parsed_u32(s: Seq<char>) -> Option<u32> {
    let digits = if s.len() > 0 && s[0] == '+' {
        s.subrange(1, s.len() as int)
    } else {
        s
    };
    if digits.len() == 0 || !all_digits(digits) || decimal_value(digits) > u32::MAX {
        None
    } else {
        Some(decimal_value(digits) as u32)
    }
}

/// The digits at the front of a number spell no more than all of them.
pub proof fn lemma_value_grows(s: Seq<char>, k: int)
    requires
        0 <= k <= s.len(),
    ensures
        decimal_value(s.subrange(0, k)) <= decimal_value(s),
    decreases s.len() - k,
{
    if k < s.len() {
        let next = s.subrange(0, k + 1);
        assert(next.drop_last() == s.subrange(0, k));
        lemma_value_grows(s, k + 1);
    } else {
        assert(s.subrange(0, k) == s);
    }
}

/// Reads a number of at most thirty-two bits.
#[verifier::loop_isolation(false)]
pub fn parse_u32(s: &str) -> (r: Option<u32>)
    ensures
        r == parsed_u32(s@),
{
    let v = chars_of(s);
    let start: usize = if v.len() > 0 && v[0] == '+' {
        1
    } else {
        0
    };
    let ghost digits = v@.subrange(start as int, v.len() as int);
    assert(start == 0 ==> digits == v@);
    if start == v.len() {
        return None;
    }
    let mut acc: u64 = 0;
    let mut i: usize = start;
    assert(digits.subrange(0, 0) =~= Seq::<char>::empty());
    while i < v.len()
        invariant
            start <= i <= v.len(),
            digits == v@.subrange(start as int, v.len() as int),
            all_digits(digits.subrange(0, i - start)),
            acc == decimal_value(digits.subrange(0, i - start)),
            acc <= u32::MAX,
        decreases v.len() - i,
    {
        let ghost next = digits.subrange(0, i + 1 - start);
        assert(next.drop_last() == digits.subrange(0, i - start));
        assert(next.last() == v@[i as int]);
        match crate::isbn::digit_of_char(v[i]) {
            None => {
                assert(!is_digit(digits[i - start]));
                return None;
            },
            Some(d) => {
                acc = acc * 10 + d as u64;
                proof {
                    assert forall|k: int| 0 <= k < next.len() implies is_digit(#[trigger] next[k]) by {
                        if k < next.len() - 1 {
                            assert(next[k] == digits.subrange(0, i - start)[k]);
                        }
                    }
                }
                if acc > u32::MAX as u64 {
                    proof {
                        lemma_value_grows(digits, i + 1 - start);
                    }
                    return None;
                }
            },
        }
        i += 1;
    }
    assert(digits.subrange(0, digits.len() as int) == digits);
    Some(acc as u32)
}

/// The width that the name of a scaled image states: the number between
/// the last slash before the first `px-` and that `px-`.
pub open spec fn thumbnail_width(url: Seq<char>) -> Option<u32> {
    if !has_part(url, "px-"@) {
        None
    } else {
        let prefix = until_part(url, "px-"@);
        match last_index_of(prefix, '/') {
            None => None,
            Some(i) => parsed_u32(prefix.subrange(i + 1, prefix.len() as int)),
        }
    }
}

/// Reads the width in pixels from the address of a scaled image, as in
/// `.../330px-Portrait.jpg`.
pub fn parse_wikipedia_thumbnail_width(url: &str) -> (r: Option<u32>)
    ensures
        r == thumbnail_width(url@),
{
    let v = chars_of(url);
    let marker = chars_of("px-");
    let index = match find_part(&v, &marker) {
        None => {
            return None;
        },
        Some(i) => i,
    };
    proof {
        lemma_first_part(v@, marker@, index as int);
    }
    let prefix = chars_of(string_of_range(&v, 0, index).as_str());
    match rfind_char(&prefix, '/') {
        None => None,
        Some(slash) => {
            let number = string_of_range(&prefix, slash + 1, prefix.len());
            parse_u32(number.as_str())
        },
    }
}

} // verus!
