//! Character-level string helpers shared by the rest of the library.
//!
//! Every string is viewed as its sequence of `char`s. The handful of Unicode
//! tables that the standard library owns (white space, letters, case
//! mapping) are reached through small trusted functions at the top of this
//! file; everything below them is verified. White space is a short list and
//! is written out; letters and case mapping are long tables and are only
//! named.

use vstd::prelude::*;

verus! {

/// The Unicode `White_Space` property. Twenty-five characters carry it: the
/// controls from tab to carriage return, the space, next line, the no-break
/// space, the ogham space mark, the spaces from en quad to hair space, the
/// line and the paragraph separator, the narrow no-break space, the medium
/// mathematical space and the ideographic space.
pub open spec fn white_space(c: char) -> bool {
    ||| '\u{9}' <= c <= '\u{d}'
    ||| c == ' '
    ||| c == '\u{85}'
    ||| c == '\u{a0}'
    ||| c == '\u{1680}'
    ||| '\u{2000}' <= c <= '\u{200a}'
    ||| c == '\u{2028}'
    ||| c == '\u{2029}'
    ||| c == '\u{202f}'
    ||| c == '\u{205f}'
    ||| c == '\u{3000}'
}

/// The Unicode `Alphabetic` property, as the standard library decides it.
pub uninterp spec fn alphabetic(c: char) -> bool;

/// Letters and numbers: what the standard library calls alphanumeric.
pub uninterp spec fn alphanumeric(c: char) -> bool;

/// The lower-case mapping of a whole string, as the standard library
/// computes it. It is context sensitive, so it is not a per-character map.
pub uninterp spec fn lowercase(s: Seq<char>) -> Seq<char>;

/// White space as used by trimming and word splitting.
pub open spec fn is_space(c: char) -> bool {
    white_space(c)
}

/// Trusted: `String::push` appends exactly one character.
pub assume_specification[ String::push ](s: &mut String, c: char)
    ensures
        final(s)@ == old(s)@.push(c),
;

/// Trusted: `char::is_whitespace` reports the `White_Space` property of the
/// Unicode character database, that is, whether the character is one of
/// the twenty-five listed in [`white_space`].
#[verifier::external_body]
pub(crate) fn char_is_space(c: char) -> (b: bool)
    ensures
        b == white_space(c),
{
    c.is_whitespace()
}

/// Trusted: `char::is_alphabetic` reports the `Alphabetic` property.
#[verifier::external_body]
pub(crate) fn char_is_alphabetic(c: char) -> (b: bool)
    ensures
        b == alphabetic(c),
{
    c.is_alphabetic()
}

/// Trusted: `char::is_alphanumeric` reports whether the character is a
/// letter or a number.
#[verifier::external_body]
pub(crate) fn char_is_alphanumeric(c: char) -> (b: bool)
    ensures
        b == alphanumeric(c),
{
    c.is_alphanumeric()
}

/// Trusted: `str::to_lowercase` returns the lower-case mapping of the text.
#[verifier::external_body]
pub(crate) fn to_lowercase(s: &str) -> (r: String)
    ensures
        r@ == lowercase(s@),
{
    s.to_lowercase()
}

/// The characters of `s`, in order.
pub fn chars_of(s: &str) -> (v: Vec<char>)
    ensures
        v@ == s@,
{
    let mut v: Vec<char> = Vec::new();
    for c in it: s.chars()
        invariant
            it.seq() == s@,
            v@ == s@.subrange(0, it.index()),
    {
        v.push(c);
    }
    assert(s@.subrange(0, s@.len() as int) == s@);
    v
}

/// The string spelled by `v[from..to]`.
pub fn string_of_range(v: &Vec<char>, from: usize, to: usize) -> (s: String)
    requires
        from <= to <= v.len(),
    ensures
        s@ == v@.subrange(from as int, to as int),
{
    let mut s = String::new();
    let mut i: usize = from;
    while i < to
        invariant
            from <= i <= to <= v.len(),
            s@ == v@.subrange(from as int, i as int),
        decreases to - i,
    {
        s.push(v[i]);
        i += 1;
    }
    s
}

/// The string spelled by `v`.
pub fn string_of(v: &Vec<char>) -> (s: String)
    ensures
        s@ == v@,
{
    let s = string_of_range(v, 0, v.len());
    assert(v@.subrange(0, v@.len() as int) == v@);
    s
}

/// An owned copy of `s`.
pub fn copy_string(s: &str) -> (r: String)
    ensures
        r@ == s@,
{
    let v = chars_of(s);
    string_of(&v)
}

/// Number of bytes that `s` takes in UTF-8.
pub fn byte_len(s: &str) -> (n: usize)
    ensures
        n == vstd::utf8::encode_utf8(s@).len(),
{
    s.as_bytes().len()
}

/// Appends the characters of `s` to `out`.
pub fn append(out: &mut String, s: &str)
    ensures
        final(out)@ == old(out)@ + s@,
{
    let v = chars_of(s);
    let mut i: usize = 0;
    assert(out@ + v@.subrange(0, 0) =~= out@);
    while i < v.len()
        invariant
            i <= v.len(),
            out@ == old(out)@ + v@.subrange(0, i as int),
        decreases v.len() - i,
    {
        out.push(v[i]);
        assert(v@.subrange(0, i + 1) == v@.subrange(0, i as int).push(v@[i as int]));
        assert(old(out)@ + v@.subrange(0, i as int).push(v@[i as int]) =~= (old(out)@
            + v@.subrange(0, i as int)).push(v@[i as int]));
        i += 1;
    }
    assert(v@.subrange(0, v.len() as int) == v@);
}

/// Whether `v` begins with `prefix`.
pub fn has_prefix(v: &Vec<char>, prefix: &Vec<char>) -> (b: bool)
    ensures
        b == prefix@.is_prefix_of(v@),
{
    if prefix.len() > v.len() {
        return false;
    }
    let mut i: usize = 0;
    while i < prefix.len()
        invariant
            i <= prefix.len() <= v.len(),
            forall|k: int| 0 <= k < i ==> v@[k] == prefix@[k],
        decreases prefix.len() - i,
    {
        if v[i] != prefix[i] {
            assert(v@.subrange(0, prefix.len() as int)[i as int] != prefix@[i as int]);
            return false;
        }
        i += 1;
    }
    assert(v@.subrange(0, prefix.len() as int) =~= prefix@);
    true
}

/// Whether two strings spell the same characters.
pub fn same_text(a: &str, b: &str) -> (eq: bool)
    ensures
        eq == (a@ == b@),
{
    let x = chars_of(a);
    let y = chars_of(b);
    if x.len() != y.len() {
        return false;
    }
    let mut i: usize = 0;
    while i < x.len()
        invariant
            i <= x.len(),
            x.len() == y.len(),
            x@ == a@,
            y@ == b@,
            forall|k: int| 0 <= k < i ==> x@[k] == y@[k],
        decreases x.len() - i,
    {
        if x[i] != y[i] {
            return false;
        }
        i += 1;
    }
    assert(x@ =~= y@);
    true
}

/// `s` without its leading white space.
pub open spec fn skip_leading(s: Seq<char>) -> Seq<char>
    decreases s.len(),
{
    if s.len() > 0 && is_space(s[0]) {
        skip_leading(s.drop_first())
    } else {
        s
    }
}

/// `s` without its trailing white space.
pub open spec fn skip_trailing(s: Seq<char>) -> Seq<char>
    decreases s.len(),
{
    if s.len() > 0 && is_space(s.last()) {
        skip_trailing(s.drop_last())
    } else {
        s
    }
}

/// `s` without leading and trailing white space.
pub open spec fn trimmed(s: Seq<char>) -> Seq<char> {
    skip_trailing(skip_leading(s))
}

/// Bounds of the trimmed part of `v`.
pub fn trim_bounds(v: &Vec<char>) -> (b: (usize, usize))
    ensures
        b.0 <= b.1 <= v.len(),
        trimmed(v@) == v@.subrange(b.0 as int, b.1 as int),
{
    let n = v.len();
    let mut a: usize = 0;
    assert(v@.subrange(0, n as int) == v@);
    while a < n && char_is_space(v[a])
        invariant
            a <= n == v.len(),
            skip_leading(v@) == skip_leading(v@.subrange(a as int, n as int)),
        decreases n - a,
    {
        assert(v@.subrange(a as int, n as int).drop_first() == v@.subrange(a + 1, n as int));
        a += 1;
    }
    let mut b: usize = n;
    while b > a && char_is_space(v[b - 1])
        invariant
            a <= b <= n == v.len(),
            skip_leading(v@) == v@.subrange(a as int, n as int),
            skip_trailing(v@.subrange(a as int, n as int)) == skip_trailing(
                v@.subrange(a as int, b as int),
            ),
        decreases b,
    {
        assert(v@.subrange(a as int, b as int).drop_last() == v@.subrange(a as int, b - 1));
        b -= 1;
    }
    (a, b)
}

/// `s` without leading and trailing white space.
pub fn trim(s: &str) -> (r: String)
    ensures
        r@ == trimmed(s@),
{
    let v = chars_of(s);
    let (a, b) = trim_bounds(&v);
    string_of_range(&v, a, b)
}

/// The words of `s`: its maximal runs of characters that are not white
/// space, in order.
pub open spec fn words(s: Seq<char>) -> Seq<Seq<char>>
    decreases s.len(),
{
    if s.len() == 0 {
        Seq::empty()
    } else {
        let front = words(s.drop_last());
        let c = s.last();
        if is_space(c) {
            front
        } else if s.len() >= 2 && !is_space(s[s.len() - 2]) && front.len() > 0 {
            front.drop_last().push(front.last().push(c))
        } else {
            front.push(seq![c])
        }
    }
}

/// A text that ends in a character that is not white space has a last word.
pub proof fn lemma_words_nonempty(s: Seq<char>)
    requires
        s.len() > 0,
        !is_space(s.last()),
    ensures
        words(s).len() > 0,
{
}

/// `ws` joined by single spaces.
pub open spec fn spaced_join(ws: Seq<Seq<char>>) -> Seq<char>
    decreases ws.len(),
{
    if ws.len() == 0 {
        Seq::empty()
    } else if ws.len() == 1 {
        ws[0]
    } else {
        spaced_join(ws.drop_last()) + seq![' '] + ws.last()
    }
}

/// `s` with every run of white space turned into one space, and none at
/// either end.
pub open spec fn collapsed(s: Seq<char>) -> Seq<char> {
    spaced_join(words(s))
}

/// Joining after the last word grew by one character appends that character.
pub proof fn lemma_join_extend(ws: Seq<Seq<char>>, c: char)
    requires
        ws.len() > 0,
    ensures
        spaced_join(ws.drop_last().push(ws.last().push(c))) == spaced_join(ws).push(c),
{
    let grown = ws.drop_last().push(ws.last().push(c));
    if ws.len() == 1 {
        assert(grown[0] == ws[0].push(c));
    } else {
        assert(grown.drop_last() == ws.drop_last());
        assert(spaced_join(ws.drop_last()) + seq![' '] + ws.last().push(c) =~= (spaced_join(
            ws.drop_last(),
        ) + seq![' '] + ws.last()).push(c));
    }
}

/// Joining after a new one-character word was added appends a space, unless
/// it is the first word, and the character.
pub proof fn lemma_join_start(ws: Seq<Seq<char>>, c: char)
    ensures
        spaced_join(ws.push(seq![c])) == if ws.len() == 0 {
            seq![c]
        } else {
            spaced_join(ws).push(' ').push(c)
        },
{
    let more = ws.push(seq![c]);
    if ws.len() == 0 {
        assert(more[0] == seq![c]);
    } else {
        assert(more.drop_last() == ws);
        assert(spaced_join(ws) + seq![' '] + seq![c] =~= spaced_join(ws).push(' ').push(c));
    }
}

/// `s` with every run of white space turned into one space, and none at
/// either end.
pub fn collapse(s: &str) -> (r: String)
    ensures
        r@ == collapsed(s@),
{
    let v = chars_of(s);
    let mut out = String::new();
    let mut in_word = false;
    let mut any = false;
    let mut i: usize = 0;
    assert(v@.subrange(0, 0) =~= Seq::empty());
    while i < v.len()
        invariant
            i <= v.len(),
            out@ == collapsed(v@.subrange(0, i as int)),
            any == (words(v@.subrange(0, i as int)).len() > 0),
            in_word == (i > 0 && !is_space(v@[i - 1])),
        decreases v.len() - i,
    {
        let c = v[i];
        let ghost before = v@.subrange(0, i as int);
        let ghost next = v@.subrange(0, i + 1);
        assert(next.drop_last() == before);
        assert(next.last() == c);
        if char_is_space(c) {
            in_word = false;
        } else {
            if in_word {
                assert(next[next.len() - 2] == v@[i - 1]);
                proof {
                    lemma_words_nonempty(before);
                    lemma_join_extend(words(before), c);
                }
            } else {
                if i > 0 {
                    assert(next[next.len() - 2] == v@[i - 1]);
                }
                proof {
                    lemma_join_start(words(before), c);
                }
                if any {
                    out.push(' ');
                }
            }
            out.push(c);
            in_word = true;
            any = true;
        }
        i += 1;
    }
    assert(v@.subrange(0, v.len() as int) == v@);
    out
}

/// The words of `s`.
pub fn split_words(s: &str) -> (r: Vec<String>)
    ensures
        crate::records::texts(r@) == words(s@),
{
    let v = chars_of(s);
    let mut out: Vec<String> = Vec::new();
    let mut cur = String::new();
    let mut in_word = false;
    let mut i: usize = 0;
    assert(v@.subrange(0, 0) =~= Seq::empty());
    assert(crate::records::texts(out@) =~= Seq::empty());
    while i < v.len()
        invariant
            i <= v.len(),
            in_word == (i > 0 && !is_space(v@[i - 1])),
            in_word ==> words(v@.subrange(0, i as int)).len() > 0 && crate::records::texts(out@)
                == words(v@.subrange(0, i as int)).drop_last() && cur@ == words(
                v@.subrange(0, i as int),
            ).last(),
            !in_word ==> crate::records::texts(out@) == words(v@.subrange(0, i as int)),
        decreases v.len() - i,
    {
        let c = v[i];
        let ghost before = v@.subrange(0, i as int);
        let ghost next = v@.subrange(0, i + 1);
        assert(next.drop_last() == before);
        assert(next.last() == c);
        if char_is_space(c) {
            if in_word {
                let ghost listed = crate::records::texts(out@);
                out.push(cur);
                assert(crate::records::texts(out@) =~= listed.push(words(before).last()));
                assert(words(before).drop_last().push(words(before).last()) =~= words(before));
                cur = String::new();
            }
            in_word = false;
        } else {
            if in_word {
                assert(next[next.len() - 2] == v@[i - 1]);
                cur.push(c);
                assert(words(next).drop_last() =~= words(before).drop_last());
            } else {
                if i > 0 {
                    assert(next[next.len() - 2] == v@[i - 1]);
                }
                cur = String::new();
                cur.push(c);
                assert(cur@ =~= seq![c]);
                assert(words(next).drop_last() =~= words(before));
            }
            in_word = true;
        }
        i += 1;
    }
    assert(v@.subrange(0, v.len() as int) == v@);
    if in_word {
        let ghost listed = crate::records::texts(out@);
        out.push(cur);
        assert(crate::records::texts(out@) =~= listed.push(words(v@).last()));
        assert(words(v@).drop_last().push(words(v@).last()) =~= words(v@));
    }
    out
}

/// Whether `pat` occurs in `s` at position `i`.
pub open spec fn occurs_at(s: Seq<char>, pat: Seq<char>, i: int) -> bool {
    0 <= i && i + pat.len() <= s.len() && s.subrange(i, i + pat.len()) == pat
}

/// Whether `pat` occurs somewhere in `s`.
pub open spec fn has_part(s: Seq<char>, pat: Seq<char>) -> bool {
    exists|i: int| occurs_at(s, pat, i)
}

/// Whether `pat` occurs in `v` at position `i`.
pub fn matches_at(v: &Vec<char>, pat: &Vec<char>, i: usize) -> (b: bool)
    ensures
        b == occurs_at(v@, pat@, i as int),
{
    if pat.len() > v.len() || i > v.len() - pat.len() {
        return false;
    }
    let mut k: usize = 0;
    while k < pat.len()
        invariant
            k <= pat.len(),
            i + pat.len() <= v.len(),
            forall|j: int| 0 <= j < k ==> v@[i + j] == pat@[j],
        decreases pat.len() - k,
    {
        if v[i + k] != pat[k] {
            assert(v@.subrange(i as int, i + pat.len())[k as int] != pat@[k as int]);
            return false;
        }
        k += 1;
    }
    assert(v@.subrange(i as int, i + pat.len()) =~= pat@);
    true
}

/// Position of the first occurrence of `pat` in `v`.
pub fn find_part(v: &Vec<char>, pat: &Vec<char>) -> (found: Option<usize>)
    ensures
        match found {
            Some(i) => occurs_at(v@, pat@, i as int) && forall|j: int|
                0 <= j < i ==> !occurs_at(v@, pat@, j),
            None => !has_part(v@, pat@),
        },
{
    if pat.len() > v.len() {
        return None;
    }
    let last = v.len() - pat.len();
    let mut i: usize = 0;
    while i < last
        invariant
            i <= last,
            last == v.len() - pat.len(),
            forall|j: int| 0 <= j < i ==> !occurs_at(v@, pat@, j),
        decreases last - i,
    {
        if matches_at(v, pat, i) {
            return Some(i);
        }
        i += 1;
    }
    if matches_at(v, pat, last) {
        Some(last)
    } else {
        None
    }
}

/// Whether `needle` occurs somewhere in `haystack`.
pub fn contains(haystack: &str, needle: &str) -> (b: bool)
    ensures
        b == has_part(haystack@, needle@),
{
    let v = chars_of(haystack);
    let p = chars_of(needle);
    find_part(&v, &p).is_some()
}

/// `s` with `text` put in before the first occurrence of `pat`; `s` itself
/// where `pat` does not occur.
pub open spec fn inserted_before(s: Seq<char>, pat: Seq<char>, text: Seq<char>) -> Seq<char>
    decreases s.len(),
{
    if occurs_at(s, pat, 0) {
        text + s
    } else if s.len() == 0 {
        s
    } else {
        seq![s[0]] + inserted_before(s.skip(1), pat, text)
    }
}

/// `s` up to the first occurrence of `pat`; all of `s` where `pat` does not
/// occur.
pub open spec fn until_part(s: Seq<char>, pat: Seq<char>) -> Seq<char> {
    if has_part(s, pat) {
        s.subrange(0, first_part(s, pat))
    } else {
        s
    }
}

/// Position of the first occurrence of `pat` in `s`, where it occurs.
pub open spec fn first_part(s: Seq<char>, pat: Seq<char>) -> int {
    choose|i: int| occurs_at(s, pat, i) && forall|j: int| 0 <= j < i ==> !occurs_at(s, pat, j)
}

/// An occurrence before which there is none is the first one.
pub proof fn lemma_first_part(s: Seq<char>, pat: Seq<char>, i: int)
    requires
        occurs_at(s, pat, i),
        forall|j: int| 0 <= j < i ==> !occurs_at(s, pat, j),
    ensures
        has_part(s, pat),
        first_part(s, pat) == i,
{
    let f = first_part(s, pat);
    assert(occurs_at(s, pat, f) && forall|j: int| 0 <= j < f ==> !occurs_at(s, pat, j));
    if f < i {
        assert(!occurs_at(s, pat, f));
    }
    if i < f {
        assert(!occurs_at(s, pat, i));
    }
}

/// Occurrences in a text without its first character are the later
/// occurrences in the text.
pub proof fn lemma_occurs_shift(s: Seq<char>, pat: Seq<char>, j: int)
    requires
        s.len() > 0,
        0 <= j,
    ensures
        occurs_at(s.skip(1), pat, j) == occurs_at(s, pat, j + 1),
{
    if j + pat.len() <= s.skip(1).len() {
        assert(s.skip(1).subrange(j, j + pat.len()) =~= s.subrange(j + 1, j + 1 + pat.len()));
    }
}

/// Putting a text in before the first occurrence splits `s` there.
pub proof fn lemma_inserted_at(s: Seq<char>, pat: Seq<char>, text: Seq<char>, i: int)
    requires
        occurs_at(s, pat, i),
        forall|j: int| 0 <= j < i ==> !occurs_at(s, pat, j),
    ensures
        inserted_before(s, pat, text) == s.subrange(0, i) + text + s.subrange(i, s.len() as int),
    decreases i,
{
    if i == 0 {
        assert(s.subrange(0, 0) + text + s.subrange(0, s.len() as int) =~= text + s);
    } else {
        assert(!occurs_at(s, pat, 0));
        let rest = s.skip(1);
        lemma_occurs_shift(s, pat, i - 1);
        assert forall|j: int| 0 <= j < i - 1 implies !occurs_at(rest, pat, j) by {
            lemma_occurs_shift(s, pat, j);
        }
        lemma_inserted_at(rest, pat, text, i - 1);
        assert(seq![s[0]] + (rest.subrange(0, i - 1) + text + rest.subrange(
            i - 1,
            rest.len() as int,
        )) =~= s.subrange(0, i) + text + s.subrange(i, s.len() as int));
    }
}

/// Where the pattern does not occur nothing is put in.
pub proof fn lemma_inserted_nowhere(s: Seq<char>, pat: Seq<char>, text: Seq<char>)
    requires
        !has_part(s, pat),
    ensures
        inserted_before(s, pat, text) == s,
    decreases s.len(),
{
    assert(!occurs_at(s, pat, 0));
    if s.len() > 0 {
        let rest = s.skip(1);
        assert forall|j: int| !occurs_at(rest, pat, j) by {
            if 0 <= j {
                lemma_occurs_shift(s, pat, j);
                assert(!occurs_at(s, pat, j + 1));
            }
        }
        lemma_inserted_nowhere(rest, pat, text);
        assert(seq![s[0]] + rest =~= s);
    }
}

/// `s` with `text` put in before the first occurrence of `pat`.
pub fn insert_before(s: &str, pat: &str, text: &str) -> (r: String)
    ensures
        r@ == inserted_before(s@, pat@, text@),
{
    let v = chars_of(s);
    let p = chars_of(pat);
    match find_part(&v, &p) {
        None => {
            proof {
                lemma_inserted_nowhere(v@, p@, text@);
            }
            string_of(&v)
        },
        Some(i) => {
            proof {
                lemma_inserted_at(v@, p@, text@, i as int);
            }
            let mut out = string_of_range(&v, 0, i);
            append(&mut out, text);
            let tail = string_of_range(&v, i, v.len());
            append(&mut out, tail.as_str());
            out
        },
    }
}

/// `s` up to the first occurrence of `pat`.
pub fn take_until(s: &str, pat: &str) -> (r: String)
    ensures
        r@ == until_part(s@, pat@),
{
    let v = chars_of(s);
    let p = chars_of(pat);
    match find_part(&v, &p) {
        None => string_of(&v),
        Some(i) => {
            proof {
                lemma_first_part(v@, p@, i as int);
            }
            string_of_range(&v, 0, i)
        },
    }
}

/// `s` with every occurrence of `pat` replaced by `rep`, from the left,
/// occurrences not overlapping. An empty `pat` replaces nothing.
pub open spec fn replaced(s: Seq<char>, pat: Seq<char>, rep: Seq<char>) -> Seq<char>
    decreases s.len(),
{
    if pat.len() == 0 || s.len() < pat.len() {
        s
    } else if occurs_at(s, pat, 0) {
        rep + replaced(s.skip(pat.len() as int), pat, rep)
    } else {
        seq![s[0]] + replaced(s.skip(1), pat, rep)
    }
}

/// `s` with every occurrence of `pat` replaced by `rep`.
pub fn replace(s: &str, pat: &str, rep: &str) -> (r: String)
    ensures
        r@ == replaced(s@, pat@, rep@),
{
    let v = chars_of(s);
    let p = chars_of(pat);
    if p.len() == 0 {
        return string_of(&v);
    }
    let mut out = String::new();
    let mut i: usize = 0;
    assert(v@.skip(0) =~= v@);
    assert(out@ + replaced(v@, p@, rep@) =~= replaced(v@, p@, rep@));
    while i < v.len()
        invariant
            i <= v.len(),
            p.len() > 0,
            p@ == pat@,
            replaced(v@, p@, rep@) == out@ + replaced(v@.skip(i as int), p@, rep@),
        decreases v.len() - i,
    {
        let ghost rest = v@.skip(i as int);
        let ghost done = out@;
        if matches_at(&v, &p, i) {
            assert(rest.subrange(0, p.len() as int) =~= v@.subrange(i as int, i + p.len()));
            assert(rest.skip(p.len() as int) =~= v@.skip(i + p.len()));
            append(&mut out, rep);
            assert(done + (rep@ + replaced(v@.skip(i + p.len()), p@, rep@)) =~= (done + rep@)
                + replaced(v@.skip(i + p.len()), p@, rep@));
            i += p.len();
        } else {
            assert(rest.len() >= p.len() ==> rest.subrange(0, p.len() as int) =~= v@.subrange(
                i as int,
                i + p.len(),
            ));
            assert(rest.skip(1) =~= v@.skip(i + 1));
            assert(rest[0] == v@[i as int]);
            out.push(v[i]);
            proof {
                if rest.len() < p@.len() {
                    // What is left is shorter than the pattern: it is copied as it is.
                    assert(replaced(rest, p@, rep@) == rest);
                    assert(replaced(rest.skip(1), p@, rep@) == rest.skip(1));
                    assert(rest =~= seq![rest[0]] + rest.skip(1));
                }
            }
            assert(done + (seq![rest[0]] + replaced(rest.skip(1), p@, rep@)) =~= done.push(rest[0])
                + replaced(rest.skip(1), p@, rep@));
            i += 1;
        }
    }
    assert(v@.skip(v.len() as int) =~= Seq::empty());
    assert(out@ + Seq::<char>::empty() =~= out@);
    out
}

/// The character for a decimal digit.
pub open spec fn digit_char(d: nat) -> char {
    if d == 0 {
        '0'
    } else if d == 1 {
        '1'
    } else if d == 2 {
        '2'
    } else if d == 3 {
        '3'
    } else if d == 4 {
        '4'
    } else if d == 5 {
        '5'
    } else if d == 6 {
        '6'
    } else if d == 7 {
        '7'
    } else if d == 8 {
        '8'
    } else {
        '9'
    }
}

/// `n` in decimal, without sign or padding.
pub open spec fn decimal(n: nat) -> Seq<char>
    decreases n,
{
    if n < 10 {
        seq![digit_char(n)]
    } else {
        decimal(n / 10).push(digit_char(n % 10))
    }
}

/// `n` in decimal, with a minus sign where it is negative.
pub open spec fn signed_decimal(n: int) -> Seq<char> {
    if n < 0 {
        seq!['-'] + decimal((-n) as nat)
    } else {
        decimal(n as nat)
    }
}

/// The character for the decimal digit `d`.
pub fn digit_of(d: u8) -> (c: char)
    requires
        d < 10,
    ensures
        c == digit_char(d as nat),
{
    if d == 0 {
        '0'
    } else if d == 1 {
        '1'
    } else if d == 2 {
        '2'
    } else if d == 3 {
        '3'
    } else if d == 4 {
        '4'
    } else if d == 5 {
        '5'
    } else if d == 6 {
        '6'
    } else if d == 7 {
        '7'
    } else if d == 8 {
        '8'
    } else {
        '9'
    }
}

/// Appends `n` in decimal to `out`.
pub fn push_decimal(out: &mut String, n: u128)
    ensures
        final(out)@ == old(out)@ + decimal(n as nat),
    decreases n,
{
    if n >= 10 {
        push_decimal(out, n / 10);
    }
    let ghost mid = out@;
    out.push(digit_of((n % 10) as u8));
    if n >= 10 {
        assert(old(out)@ + decimal((n / 10) as nat).push(digit_char((n % 10) as nat)) =~= mid.push(
            digit_char((n % 10) as nat),
        ));
    } else {
        assert(old(out)@ + seq![digit_char(n as nat)] =~= mid.push(digit_char(n as nat)));
    }
}

/// `n` in decimal, with a minus sign where it is negative.
pub fn format_integer(n: i64) -> (r: String)
    ensures
        r@ == signed_decimal(n as int),
{
    let mut out = String::new();
    if n < 0 {
        out.push('-');
        assert(out@ =~= seq!['-']);
        push_decimal(&mut out, (-(n as i128)) as u128);
    } else {
        push_decimal(&mut out, n as u128);
        assert(Seq::<char>::empty() + decimal(n as nat) =~= decimal(n as nat));
    }
    out
}

} // verus!
