//! Text heuristics for author names and descriptions.
//!
//! Everything here is a computation on characters: which catalogs to ask,
//! whether a description reads like that of a writer, and how a name is
//! reduced to the tokens it is compared by.

use vstd::prelude::*;
use crate::records::{opt_view, texts};
use crate::text::{
    alphanumeric, append, chars_of, collapse, collapsed, contains, has_part, lowercase,
    to_lowercase, trimmed, words,
};

verus! {

/// The lower-case mapping of one character, as the standard library
/// computes it. It can be more than one character long.
pub uninterp spec fn char_lowercase(c: char) -> Seq<char>;

/// Trusted: `char::to_lowercase` yields the lower-case mapping of the
/// character.
#[verifier::external_body]
pub(crate) fn lower_of(c: char) -> (r: String)
    ensures
        r@ == char_lowercase(c),
{
    c.to_lowercase().collect()
}

/// Which catalogs to ask about an author.
#[derive(Debug, Clone, Copy, PartialEq, Eq, Structural)]
pub struct AuthorSourceSelection {
    pub open_library: bool,
    pub wikidata: bool,
    pub wikipedia: bool,
}

impl AuthorSourceSelection {
    /// The selection itself, unless it selects nothing: then Open Library
    /// alone.
    pub fn with_fallback(self) -> (r: Self)
        ensures
            r.wikidata == self.wikidata,
            r.wikipedia == self.wikipedia,
            r.open_library == (self.open_library || (!self.wikidata && !self.wikipedia)),
    {
        let mut r = self;
        if !self.open_library && !self.wikidata && !self.wikipedia {
            r.open_library = true;
        }
        r
    }
}

/// Whether a description, in any letter case, names a writing profession.
pub fn looks_like_author_description(value: &str) -> (b: bool)
    ensures
        b == {
            let t = lowercase(value@);
            ||| has_part(t, "author"@)
            ||| has_part(t, "writer"@)
            ||| has_part(t, "novelist"@)
            ||| has_part(t, "poet"@)
            ||| has_part(t, "playwright"@)
            ||| has_part(t, "essayist"@)
        },
{
    let lowered = to_lowercase(value);
    let t = lowered.as_str();
    contains(t, "author") || contains(t, "writer") || contains(t, "novelist") || contains(
        t,
        "poet",
    ) || contains(t, "playwright") || contains(t, "essayist")
}

/// Whether a description, in any letter case, is that of a work or a
/// fictional character rather than of a person.
pub fn looks_like_non_person_description(value: &str) -> (b: bool)
    ensures
        b == {
            let t = lowercase(value@);
            ||| has_part(t, "painting"@)
            ||| has_part(t, "film"@)
            ||| has_part(t, "album"@)
            ||| has_part(t, "song"@)
            ||| has_part(t, "tv"@)
            ||| has_part(t, "television"@)
            ||| has_part(t, "episode"@)
            ||| has_part(t, "character"@)
            ||| has_part(t, "novel by"@)
            ||| has_part(t, "book by"@)
        },
{
    let lowered = to_lowercase(value);
    let t = lowered.as_str();
    contains(t, "painting") || contains(t, "film") || contains(t, "album") || contains(t, "song")
        || contains(t, "tv") || contains(t, "television") || contains(t, "episode") || contains(
        t,
        "character",
    ) || contains(t, "novel by") || contains(t, "book by")
}

/// Whether a description, in any letter case, is that of a name rather than
/// of a person.
pub fn looks_like_name_page_description(value: &str) -> (b: bool)
    ensures
        b == {
            let t = lowercase(value@);
            ||| has_part(t, "given name"@)
            ||| has_part(t, "first name"@)
            ||| has_part(t, "family name"@)
            ||| has_part(t, "surname"@)
            ||| has_part(t, "disambiguation"@)
            ||| has_part(t, "name of"@)
        },
{
    let lowered = to_lowercase(value);
    let t = lowered.as_str();
    contains(t, "given name") || contains(t, "first name") || contains(t, "family name")
        || contains(t, "surname") || contains(t, "disambiguation") || contains(t, "name of")
}

/// Whether a text, in any letter case, speaks of a person.
pub fn looks_like_person_context(value: &str) -> (b: bool)
    ensures
        b == {
            let t = lowercase(value@);
            ||| has_part(t, "born"@)
            ||| has_part(t, "is a "@)
            ||| has_part(t, "person"@)
            ||| has_part(t, "people"@)
            ||| has_part(t, "biography"@)
            ||| has_part(t, "he is"@)
            ||| has_part(t, "she is"@)
        },
{
    let lowered = to_lowercase(value);
    let t = lowered.as_str();
    contains(t, "born") || contains(t, "is a ") || contains(t, "person") || contains(t, "people")
        || contains(t, "biography") || contains(t, "he is") || contains(t, "she is")
}

/// A text with every run of white space turned into one space and none at
/// either end.
pub fn normalize_ws(value: &str) -> (r: String)
    ensures
        r@ == collapsed(value@),
{
    collapse(value)
}

/// The text trimmed of white space, unless nothing is left of it.
pub fn non_empty(value: String) -> (r: Option<String>)
    ensures
        opt_view(r) == if trimmed(value@).len() == 0 {
            None
        } else {
            Some(trimmed(value@))
        },
{
    let t = crate::text::trim(value.as_str());
    if chars_of(t.as_str()).len() == 0 {
        None
    } else {
        Some(t)
    }
}

/// `s` with every letter and number in lower case and every other
/// character turned into a space.
pub open spec fn keyed(s: Seq<char>) -> Seq<char>
    decreases s.len(),
{
    if s.len() == 0 {
        Seq::empty()
    } else {
        keyed(s.drop_last()) + if alphanumeric(s.last()) {
            char_lowercase(s.last())
        } else {
            seq![' ']
        }
    }
}

/// The key that an author's name is compared by.
pub open spec fn author_key(name: Seq<char>) -> Seq<char> {
    collapsed(keyed(collapsed(name)))
}

/// Reduces an author's name to the key it is compared by: letters and
/// numbers in lower case, everything else a separator, words joined by
/// single spaces.
pub fn normalize_author_key(value: &str) -> (r: String)
    ensures
        r@ == author_key(value@),
{
    let tidy = collapse(value);
    let v = chars_of(tidy.as_str());
    let mut lowered = String::new();
    let mut i: usize = 0;
    assert(v@.subrange(0, 0) =~= Seq::<char>::empty());
    while i < v.len()
        invariant
            i <= v.len(),
            lowered@ == keyed(v@.subrange(0, i as int)),
        decreases v.len() - i,
    {
        let ghost next = v@.subrange(0, i + 1);
        assert(next.drop_last() == v@.subrange(0, i as int));
        assert(next.last() == v@[i as int]);
        if crate::text::char_is_alphanumeric(v[i]) {
            let low = lower_of(v[i]);
            append(&mut lowered, low.as_str());
        } else {
            lowered.push(' ');
            assert(keyed(v@.subrange(0, i as int)).push(' ') =~= keyed(v@.subrange(0, i as int))
                + seq![' ']);
        }
        i += 1;
    }
    assert(v@.subrange(0, v.len() as int) == v@);
    collapse(lowered.as_str())
}

/// `ws` without repetitions: of equal entries the first stays.
pub open spec fn distinct(ws: Seq<Seq<char>>) -> Seq<Seq<char>>
    decreases ws.len(),
{
    if ws.len() == 0 {
        Seq::empty()
    } else {
        let front = distinct(ws.drop_last());
        if front.contains(ws.last()) {
            front
        } else {
            front.push(ws.last())
        }
    }
}

/// `list` without repetitions.
pub fn without_repeats(list: Vec<String>) -> (r: Vec<String>)
    ensures
        texts(r@) == distinct(texts(list@)),
{
    let ghost all = texts(list@);
    let mut out: Vec<String> = Vec::new();
    let mut i: usize = 0;
    assert(all.subrange(0, 0) =~= Seq::<Seq<char>>::empty());
    assert(texts(out@) =~= Seq::<Seq<char>>::empty());
    while i < list.len()
        invariant
            i <= list.len(),
            all == texts(list@),
            texts(out@) == distinct(all.subrange(0, i as int)),
        decreases list.len() - i,
    {
        let ghost next = all.subrange(0, i + 1);
        assert(next.drop_last() == all.subrange(0, i as int));
        assert(next.last() == list@[i as int]@);
        if !crate::scanner::holds_text(&out, list[i].as_str()) {
            let ghost before = texts(out@);
            out.push(list[i].clone());
            assert(texts(out@) =~= before.push(list@[i as int]@));
        }
        i += 1;
    }
    assert(all.subrange(0, i as int) == all);
    out
}

/// The distinct words of a text in lower case, in the order in which they
/// first occur.
pub fn tokenize(value: &str) -> (r: Vec<String>)
    ensures
        texts(r@) == distinct(words(lowercase(value@))),
{
    let lowered = to_lowercase(value);
    without_repeats(crate::text::split_words(lowered.as_str()))
}

/// The names of the given sources, each once, in the order in which they
/// first occur.
pub fn dedupe_sources(values: Vec<String>) -> (r: Vec<String>)
    ensures
        texts(r@) == distinct(texts(values@)),
{
    without_repeats(values)
}

/// Whether a token is one of the particles that family names are built
/// with and that alone identify nobody.
pub open spec fn is_particle(t: Seq<char>) -> bool {
    ||| t == "de"@
    ||| t == "den"@
    ||| t == "der"@
    ||| t == "van"@
    ||| t == "von"@
    ||| t == "da"@
    ||| t == "di"@
    ||| t == "la"@
    ||| t == "le"@
    ||| t == "du"@
    ||| t == "del"@
    ||| t == "della"@
    ||| t == "ten"@
    ||| t == "ter"@
    ||| t == "op"@
}

/// Whether a token of a name can be required of a match: it takes at least
/// three bytes and is no particle.
pub open spec fn is_significant(t: Seq<char>) -> bool {
    vstd::utf8::encode_utf8(t).len() >= 3 && !is_particle(t)
}

/// The significant ones among `ws`, in order.
pub open spec fn significant(ws: Seq<Seq<char>>) -> Seq<Seq<char>>
    decreases ws.len(),
{
    if ws.len() == 0 {
        Seq::empty()
    } else {
        let front = significant(ws.drop_last());
        if is_significant(ws.last()) {
            front.push(ws.last())
        } else {
            front
        }
    }
}

/// The tokens that a match for `name` must show: of a name of two words or
/// more, the significant tokens but the first.
pub open spec fn required_tokens(name: Seq<char>) -> Seq<Seq<char>> {
    let tokens = words(author_key(name));
    if tokens.len() < 2 || significant(tokens).len() == 0 {
        Seq::empty()
    } else {
        significant(tokens).drop_first()
    }
}

/// Whether `token` is a particle.
fn particle(token: &str) -> (b: bool)
    ensures
        b == is_particle(token@),
{
    crate::text::same_text(token, "de") || crate::text::same_text(token, "den")
        || crate::text::same_text(token, "der") || crate::text::same_text(token, "van")
        || crate::text::same_text(token, "von") || crate::text::same_text(token, "da")
        || crate::text::same_text(token, "di") || crate::text::same_text(token, "la")
        || crate::text::same_text(token, "le") || crate::text::same_text(token, "du")
        || crate::text::same_text(token, "del") || crate::text::same_text(token, "della")
        || crate::text::same_text(token, "ten") || crate::text::same_text(token, "ter")
        || crate::text::same_text(token, "op")
}

/// The tokens that a match for `name` must show.
pub fn required_name_tokens(name: &str) -> (r: Vec<String>)
    ensures
        texts(r@) == required_tokens(name@),
{
    let key = normalize_author_key(name);
    let tokens = crate::text::split_words(key.as_str());
    let ghost all = texts(tokens@);
    if tokens.len() < 2 {
        let none: Vec<String> = Vec::new();
        assert(texts(none@) =~= Seq::<Seq<char>>::empty());
        return none;
    }
    let mut out: Vec<String> = Vec::new();
    let mut kept: usize = 0;
    let mut i: usize = 0;
    assert(all.subrange(0, 0) =~= Seq::<Seq<char>>::empty());
    assert(texts(out@) =~= Seq::<Seq<char>>::empty());
    while i < tokens.len()
        invariant
            i <= tokens.len(),
            all == texts(tokens@),
            kept == significant(all.subrange(0, i as int)).len(),
            kept <= i,
            kept == 0 ==> out@.len() == 0,
            kept > 0 ==> texts(out@) == significant(all.subrange(0, i as int)).drop_first(),
        decreases tokens.len() - i,
    {
        let ghost before = all.subrange(0, i as int);
        let ghost next = all.subrange(0, i + 1);
        assert(next.drop_last() == before);
        assert(next.last() == tokens@[i as int]@);
        let t = tokens[i].as_str();
        let long = crate::text::byte_len(t) >= 3;
        let plain = !particle(t);
        assert((long && plain) == is_significant(next.last()));
        if long && plain {
            if kept > 0 {
                let ghost listed = texts(out@);
                out.push(tokens[i].clone());
                assert(texts(out@) =~= listed.push(tokens@[i as int]@));
                assert(significant(before).push(next.last()).drop_first() =~= significant(
                    before,
                ).drop_first().push(next.last()));
            } else {
                assert(significant(before) =~= Seq::<Seq<char>>::empty());
                assert(significant(next).drop_first() =~= Seq::<Seq<char>>::empty());
                assert(texts(out@) =~= Seq::<Seq<char>>::empty());
            }
            kept += 1;
        }
        i += 1;
    }
    assert(all.subrange(0, i as int) == all);
    assert(kept == 0 ==> texts(out@) =~= Seq::<Seq<char>>::empty());
    out
}

/// Whether some candidate, reduced to its key, shows `token` as a word.
pub open spec fn shown_by(candidates: Seq<Seq<char>>, token: Seq<char>) -> bool {
    exists|c: int|
        0 <= c < candidates.len() && words(lowercase(author_key(#[trigger] candidates[c]))).contains(
            token,
        )
}

/// Whether the candidates, taken together, show every token that a match
/// for `expected_name` must show. A name that requires nothing is matched
/// by anything.
pub fn has_required_name_token_match(expected_name: &str, candidates: &Vec<String>) -> (b: bool)
    ensures
        b == forall|k: int|
            0 <= k < required_tokens(expected_name@).len() ==> shown_by(
                texts(candidates@),
                #[trigger] required_tokens(expected_name@)[k],
            ),
{
    let required = required_name_tokens(expected_name);
    let ghost wanted = texts(required@);
    let ghost names = texts(candidates@);
    let mut keys: Vec<Vec<String>> = Vec::new();
    let mut c: usize = 0;
    while c < candidates.len()
        invariant
            c <= candidates.len(),
            keys.len() == c,
            names == texts(candidates@),
            forall|j: int|
                0 <= j < c ==> texts((#[trigger] keys@[j])@) == words(
                    lowercase(author_key(names[j])),
                ),
        decreases candidates.len() - c,
    {
        let key = normalize_author_key(candidates[c].as_str());
        let lowered = to_lowercase(key.as_str());
        keys.push(crate::text::split_words(lowered.as_str()));
        c += 1;
    }
    let mut k: usize = 0;
    while k < required.len()
        invariant
            k <= required.len(),
            keys.len() == candidates.len(),
            wanted == texts(required@),
            wanted == required_tokens(expected_name@),
            names == texts(candidates@),
            forall|j: int|
                0 <= j < keys.len() ==> texts((#[trigger] keys@[j])@) == words(
                    lowercase(author_key(names[j])),
                ),
            forall|j: int| 0 <= j < k ==> shown_by(names, #[trigger] wanted[j]),
        decreases required.len() - k,
    {
        let token = required[k].as_str();
        let mut found = false;
        let mut j: usize = 0;
        while j < keys.len() && !found
            invariant
                j <= keys.len(),
                keys.len() == candidates.len(),
                names == texts(candidates@),
                k < wanted.len(),
                token@ == wanted[k as int],
                forall|x: int|
                    0 <= x < keys.len() ==> texts((#[trigger] keys@[x])@) == words(
                        lowercase(author_key(names[x])),
                    ),
                found ==> shown_by(names, token@),
                !found ==> forall|x: int|
                    0 <= x < j ==> !words(lowercase(author_key(#[trigger] names[x]))).contains(
                        token@,
                    ),
            decreases keys.len() - j + if found {
                0int
            } else {
                1int
            },
        {
            if crate::scanner::holds_text(&keys[j], token) {
                assert(words(lowercase(author_key(names[j as int]))).contains(token@));
                found = true;
            } else {
                j += 1;
            }
        }
        if !found {
            assert(!shown_by(names, wanted[k as int]));
            return false;
        }
        k += 1;
    }
    true
}

} // verus!
