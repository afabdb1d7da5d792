//! Reducing titles and authors' names to the forms they are compared in.

use vstd::prelude::*;
use crate::authors::distinct;
use crate::planner::{before_char, take_before};
use crate::records::{opt_view, texts};
use crate::text::{
    alphabetic, alphanumeric, byte_len, chars_of, collapse, collapsed, contains, has_part,
    is_space, lowercase, same_text, take_until, to_lowercase, trim, trimmed, until_part, words,
};

verus! {

/// The form in which a title is remembered: white space collapsed, lower
/// case.
pub fn normalize_title_snapshot(value: &str) -> (r: String)
    ensures
        r@ == lowercase(collapsed(value@)),
{
    let tidy = collapse(value);
    to_lowercase(tidy.as_str())
}

/// Whether a character is an ASCII letter or digit.
pub open spec fn is_ascii_alphanumeric(c: char) -> bool {
    ('0' <= c && c <= '9') || ('a' <= c && c <= 'z') || ('A' <= c && c <= 'Z')
}

/// `s` with every character that is neither an ASCII letter or digit nor
/// white space turned into a space.
pub open spec fn ascii_plain(s: Seq<char>) -> Seq<char> {
    Seq::new(
        s.len(),
        |i: int|
            if is_ascii_alphanumeric(s[i]) || is_space(s[i]) {
                s[i]
            } else {
                ' '
            },
    )
}

/// The distinct words of a text in lower case, punctuation and everything
/// outside ASCII counting as separators, in the order in which they first
/// occur.
pub fn tokenize(value: &str) -> (r: Vec<String>)
    ensures
        texts(r@) == distinct(words(ascii_plain(lowercase(value@)))),
{
    let lowered = to_lowercase(value);
    let v = chars_of(lowered.as_str());
    let mut plain = String::new();
    let mut i: usize = 0;
    while i < v.len()
        invariant
            i <= v.len(),
            plain@ == ascii_plain(v@).subrange(0, i as int),
        decreases v.len() - i,
    {
        let c = v[i];
        let keep = ('0' <= c && c <= '9') || ('a' <= c && c <= 'z') || ('A' <= c && c <= 'Z')
            || crate::text::char_is_space(c);
        let d = if keep {
            c
        } else {
            ' '
        };
        plain.push(d);
        assert(ascii_plain(v@).subrange(0, i + 1) == ascii_plain(v@).subrange(0, i as int).push(d));
        i += 1;
    }
    assert(ascii_plain(v@).subrange(0, v.len() as int) == ascii_plain(v@));
    crate::authors::without_repeats(crate::text::split_words(plain.as_str()))
}

/// `s` without the article it begins with, if it begins with one.
pub open spec fn without_article(s: Seq<char>) -> Seq<char> {
    if "the "@.is_prefix_of(s) {
        s.skip("the "@.len() as int)
    } else if "a "@.is_prefix_of(s) {
        s.skip("a "@.len() as int)
    } else if "an "@.is_prefix_of(s) {
        s.skip("an "@.len() as int)
    } else if "de "@.is_prefix_of(s) {
        s.skip("de "@.len() as int)
    } else if "het "@.is_prefix_of(s) {
        s.skip("het "@.len() as int)
    } else if "een "@.is_prefix_of(s) {
        s.skip("een "@.len() as int)
    } else {
        s
    }
}

/// `s` with every character that is neither letter, number nor white space
/// turned into a space.
pub open spec fn plain(s: Seq<char>) -> Seq<char> {
    Seq::new(
        s.len(),
        |i: int|
            if alphanumeric(s[i]) || is_space(s[i]) {
                s[i]
            } else {
                ' '
            },
    )
}

/// The form in which titles are matched: lower case, cut at the first
/// colon and at the first hyphen set off by spaces, without a leading
/// article, punctuation as spaces, white space collapsed.
pub open spec fn matching_form(title: Seq<char>) -> Seq<char> {
    collapsed(
        plain(without_article(until_part(before_char(lowercase(title), ':'), " - "@))),
    )
}

/// `s` without `article` in front, if it begins with it.
fn strip_article(v: &Vec<char>, article: &str) -> (start: Option<usize>)
    ensures
        match start {
            Some(n) => article@.is_prefix_of(v@) && n == article@.len() && n <= v.len(),
            None => !article@.is_prefix_of(v@),
        },
{
    let a = chars_of(article);
    if crate::text::has_prefix(v, &a) {
        Some(a.len())
    } else {
        None
    }
}

/// Reduces a title to the form in which titles are matched.
pub fn normalize_title_for_matching(title: &str) -> (r: String)
    ensures
        r@ == matching_form(title@),
{
    let lowered = to_lowercase(title);
    let main = take_before(lowered.as_str(), ':');
    let main = take_until(main.as_str(), " - ");
    let v = chars_of(main.as_str());
    let start: usize = match strip_article(&v, "the ") {
        Some(n) => n,
        None => match strip_article(&v, "a ") {
            Some(n) => n,
            None => match strip_article(&v, "an ") {
                Some(n) => n,
                None => match strip_article(&v, "de ") {
                    Some(n) => n,
                    None => match strip_article(&v, "het ") {
                        Some(n) => n,
                        None => match strip_article(&v, "een ") {
                            Some(n) => n,
                            None => 0,
                        },
                    },
                },
            },
        },
    };
    let ghost rest = without_article(v@);
    assert(rest =~= v@.subrange(start as int, v.len() as int));
    let mut out = String::new();
    let mut i: usize = start;
    while i < v.len()
        invariant
            start <= i <= v.len(),
            rest == v@.subrange(start as int, v.len() as int),
            out@ == plain(rest).subrange(0, i - start),
        decreases v.len() - i,
    {
        let c = v[i];
        let d = if crate::text::char_is_alphanumeric(c) || crate::text::char_is_space(c) {
            c
        } else {
            ' '
        };
        out.push(d);
        assert(rest[i - start] == c);
        assert(plain(rest).subrange(0, i + 1 - start) == plain(rest).subrange(0, i - start).push(d));
        i += 1;
    }
    assert(plain(rest).subrange(0, rest.len() as int) == plain(rest));
    collapse(out.as_str())
}

/// Reduces an author's name to the form in which names are matched, which
/// is the form in which titles are.
pub fn normalize_author_for_matching(author: &str) -> (r: String)
    ensures
        r@ == matching_form(author@),
{
    normalize_title_for_matching(author)
}

/// The likely family name in an author's name: what stands before the
/// first comma, or else the last word.
pub open spec fn last_name(author: Seq<char>) -> Seq<char> {
    let a = lowercase(trimmed(author));
    if a.contains(',') {
        trimmed(before_char(a, ','))
    } else if words(a).len() > 0 {
        words(a).last()
    } else {
        a
    }
}

/// Whether `v` holds the character `c`.
fn holds_char(v: &Vec<char>, c: char) -> (b: bool)
    ensures
        b == v@.contains(c),
{
    let mut i: usize = 0;
    while i < v.len()
        invariant
            i <= v.len(),
            forall|k: int| 0 <= k < i ==> v@[k] != c,
        decreases v.len() - i,
    {
        if v[i] == c {
            return true;
        }
        i += 1;
    }
    false
}

/// Extracts the likely family name from an author's name, in lower case.
/// Both "Family, Given" and "Given Family" are understood.
pub fn extract_author_last_name(author: &str) -> (r: String)
    ensures
        r@ == last_name(author@),
{
    let tidy = trim(author);
    let a = to_lowercase(tidy.as_str());
    let v = chars_of(a.as_str());
    if holds_char(&v, ',') {
        let front = take_before(a.as_str(), ',');
        return trim(front.as_str());
    }
    let mut parts = crate::text::split_words(a.as_str());
    let ghost all = texts(parts@);
    match parts.pop() {
        Some(last) => {
            assert(last@ == all.last());
            last
        },
        None => a,
    }
}

/// Whether one of the two names has the other as a part.
pub open spec fn names_overlap(a: Seq<char>, b: Seq<char>) -> bool {
    has_part(a, b) || has_part(b, a)
}

/// Whether two lists of authors likely name a common author: one list is
/// empty, or some family name of the one has, or is, a part of some family
/// name of the other.
pub open spec fn authors_match(ours: Seq<Seq<char>>, theirs: Seq<Seq<char>>) -> bool {
    ours.len() == 0 || theirs.len() == 0 || exists|i: int, j: int|
        0 <= i < ours.len() && 0 <= j < theirs.len() && names_overlap(
            last_name(#[trigger] ours[i]),
            last_name(#[trigger] theirs[j]),
        )
}

/// Decides whether two lists of authors likely name a common author.
pub fn authors_match_fuzzy(lib_authors: &Vec<String>, book_authors: &Vec<String>) -> (b: bool)
    ensures
        b == authors_match(texts(lib_authors@), texts(book_authors@)),
{
    if lib_authors.len() == 0 || book_authors.len() == 0 {
        return true;
    }
    let ghost ours = texts(lib_authors@);
    let ghost theirs = texts(book_authors@);
    let mut i: usize = 0;
    while i < lib_authors.len()
        invariant
            i <= lib_authors.len(),
            ours == texts(lib_authors@),
            theirs == texts(book_authors@),
            forall|x: int, y: int|
                0 <= x < i && 0 <= y < theirs.len() ==> !names_overlap(
                    last_name(#[trigger] ours[x]),
                    last_name(#[trigger] theirs[y]),
                ),
        decreases lib_authors.len() - i,
    {
        let mine = extract_author_last_name(lib_authors[i].as_str());
        let mut j: usize = 0;
        while j < book_authors.len()
            invariant
                j <= book_authors.len(),
                i < lib_authors.len(),
                ours == texts(lib_authors@),
                theirs == texts(book_authors@),
                mine@ == last_name(ours[i as int]),
                forall|y: int|
                    0 <= y < j ==> !names_overlap(mine@, last_name(#[trigger] theirs[y])),
            decreases book_authors.len() - j,
        {
            let other = extract_author_last_name(book_authors[j].as_str());
            if contains(mine.as_str(), other.as_str()) || contains(other.as_str(), mine.as_str()) {
                assert(names_overlap(last_name(ours[i as int]), last_name(theirs[j as int])));
                return true;
            }
            j += 1;
        }
        i += 1;
    }
    false
}

/// Number of alphabetic characters among the first `n` of `s`.
pub open spec fn letters(s: Seq<char>, n: int) -> nat
    decreases n,
{
    if n <= 0 {
        0
    } else {
        letters(s, n - 1) + if alphabetic(s[n - 1]) {
            1nat
        } else {
            0nat
        }
    }
}

/// An author's name as it goes into a search: trimmed, and nothing where it
/// is shorter than two bytes, where fewer of its characters are letters
/// than half its length in bytes, or where it says that the author is not
/// known.
pub open spec fn search_author(author: Seq<char>) -> Option<Seq<char>> {
    let name = trimmed(author);
    let bytes = vstd::utf8::encode_utf8(name).len();
    let low = lowercase(name);
    if bytes < 2 || letters(name, name.len() as int) < bytes / 2 || has_part(low, "unknown"@)
        || has_part(low, "various"@) || low == "author"@ {
        None
    } else {
        Some(name)
    }
}

/// Cleans an author's name for a search.
pub fn clean_search_author(author: &str) -> (r: Option<String>)
    ensures
        opt_view(r) == search_author(author@),
{
    let name = trim(author);
    let bytes = byte_len(name.as_str());
    if bytes < 2 {
        return None;
    }
    let v = chars_of(name.as_str());
    let mut count: usize = 0;
    let mut i: usize = 0;
    while i < v.len()
        invariant
            i <= v.len(),
            count == letters(v@, i as int),
            count <= i,
        decreases v.len() - i,
    {
        if crate::text::char_is_alphabetic(v[i]) {
            count += 1;
        }
        i += 1;
    }
    if count < bytes / 2 {
        return None;
    }
    let low = to_lowercase(name.as_str());
    if contains(low.as_str(), "unknown") || contains(low.as_str(), "various") || same_text(
        low.as_str(),
        "author",
    ) {
        return None;
    }
    Some(name)
}

} // verus!
