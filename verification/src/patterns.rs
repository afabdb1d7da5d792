//! Regular expressions and XML references, by way of the crates that own
//! them.
//!
//! What a regular expression matches and what a reference resolves to takes
//! a book to say. The library does not say it: it gives the results names,
//! and states what it builds from them.

use vstd::prelude::*;
use crate::records::{opt_view, texts};

verus! {

/// Whether a regular expression matches somewhere in a text, as the `regex`
/// crate decides it; nothing where the expression does not compile.
pub uninterp spec fn regex_matches(pattern: Seq<char>, text: Seq<char>) -> Option<bool>;

/// A text with the first `limit` matches of a regular expression replaced,
/// all of them where `limit` is 0, as the `regex` crate does it; nothing
/// where the expression does not compile.
pub uninterp spec fn regex_replaced(
    pattern: Seq<char>,
    text: Seq<char>,
    limit: nat,
    replacement: Seq<char>,
) -> Option<Seq<char>>;

/// What a regular expression matches in a text: the matched pieces, from
/// left to right and without overlap, as the `regex` crate finds them;
/// nothing where the expression does not compile.
pub uninterp spec fn regex_found(pattern: Seq<char>, text: Seq<char>) -> Option<Seq<Seq<char>>>;

/// A text with its XML character and entity references resolved, as the
/// `quick-xml` crate does it; nothing where a reference is malformed or
/// unknown. The entities known are the five that XML predefines: the crate
/// is built without its table of HTML entities.
pub uninterp spec fn xml_unescaped(text: Seq<char>) -> Option<Seq<char>>;

/// Trusted: `regex::Regex::new` compiles the expression and
/// `Regex::is_match` says whether it matches somewhere in the text.
#[verifier::external_body]
pub(crate) fn regex_is_match(pattern: &str, text: &str) -> (r: Option<bool>)
    ensures
        r == regex_matches(pattern@, text@),
{
    match regex::Regex::new(pattern) {
        Ok(expression) => Some(expression.is_match(text)),
        Err(_) => None,
    }
}

/// Trusted: `regex::Regex::new` compiles the expression and
/// `Regex::replacen` replaces the first `limit` matches in the text, or all
/// of them where `limit` is 0.
#[verifier::external_body]
pub(crate) fn regex_replacen(pattern: &str, text: &str, limit: usize, replacement: &str) -> (r:
    Option<String>)
    ensures
        opt_view(r) == regex_replaced(pattern@, text@, limit as nat, replacement@),
{
    match regex::Regex::new(pattern) {
        Ok(expression) => Some(expression.replacen(text, limit, replacement).into_owned()),
        Err(_) => None,
    }
}

/// Trusted: `regex::Regex::new` compiles the expression and
/// `Regex::find_iter` yields its successive matches in the text, which do
/// not overlap; each is handed out as the piece of text that it covers.
#[verifier::external_body]
pub(crate) fn regex_find_all(pattern: &str, text: &str) -> (r: Option<Vec<String>>)
    ensures
        match r {
            Some(pieces) => regex_found(pattern@, text@) == Some(texts(pieces@)),
            None => regex_found(pattern@, text@) is None,
        },
{
    match regex::Regex::new(pattern) {
        Ok(expression) => Some(expression.find_iter(text).map(|m| m.as_str().to_string()).collect()),
        Err(_) => None,
    }
}

/// Trusted: `quick_xml::escape::unescape` resolves the references in the
/// text, or fails.
#[verifier::external_body]
pub(crate) fn xml_unescape(text: &str) -> (r: Option<String>)
    ensures
        opt_view(r) == xml_unescaped(text@),
{
    match quick_xml::escape::unescape(text) {
        Ok(resolved) => Some(resolved.into_owned()),
        Err(_) => None,
    }
}

/// `text` with the first `limit` matches of `pattern` replaced, all of them
/// where `limit` is 0; `text` itself where the expression does not compile.
pub open spec fn swapped(
    pattern: Seq<char>,
    text: Seq<char>,
    limit: nat,
    replacement: Seq<char>,
) -> Seq<char> {
    match regex_replaced(pattern, text, limit, replacement) {
        Some(t) => t,
        None => text,
    }
}

/// `text` with every match of `pattern` replaced.
pub fn swap_all(pattern: &str, text: String, replacement: &str) -> (r: String)
    ensures
        r@ == swapped(pattern@, text@, 0, replacement@),
{
    match regex_replacen(pattern, text.as_str(), 0, replacement) {
        Some(t) => t,
        None => text,
    }
}

/// `text` with the first match of `pattern` replaced.
pub fn swap_first(pattern: &str, text: String, replacement: &str) -> (r: String)
    ensures
        r@ == swapped(pattern@, text@, 1, replacement@),
{
    match regex_replacen(pattern, text.as_str(), 1, replacement) {
        Some(t) => t,
        None => text,
    }
}

/// Whether `pattern` matches somewhere in `text`; not where the expression
/// does not compile.
pub fn occurs(pattern: &str, text: &str) -> (b: bool)
    ensures
        b == (regex_matches(pattern@, text@) == Some(true)),
{
    match regex_is_match(pattern, text) {
        Some(b) => b,
        None => false,
    }
}

/// What `pattern` matches in `text`, from left to right; nothing at all
/// where the expression does not compile.
pub open spec fn found(pattern: Seq<char>, text: Seq<char>) -> Seq<Seq<char>> {
    match regex_found(pattern, text) {
        Some(pieces) => pieces,
        None => Seq::empty(),
    }
}

/// The pieces of `text` that `pattern` matches, from left to right.
pub fn find_all(pattern: &str, text: &str) -> (pieces: Vec<String>)
    ensures
        texts(pieces@) == found(pattern@, text@),
{
    match regex_find_all(pattern, text) {
        Some(pieces) => pieces,
        None => {
            let pieces: Vec<String> = Vec::new();
            assert(texts(pieces@) =~= Seq::<Seq<char>>::empty());
            pieces
        },
    }
}

/// `text` with its references resolved, or as it is where one of them is
/// malformed or unknown.
pub fn resolve_references(text: String) -> (r: String)
    ensures
        r@ == match xml_unescaped(text@) {
            Some(t) => t,
            None => text@,
        },
{
    match xml_unescape(text.as_str()) {
        Some(t) => t,
        None => text,
    }
}

} // verus!
