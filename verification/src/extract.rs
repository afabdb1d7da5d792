//! Reading embedded metadata from a package document.
//!
//! A reader cuts the document into pieces: opening tags, empty elements
//! and runs of text. What each piece contributes is decided here. The
//! first title, language, date and description win; every creator and
//! every identifier is collected; a series comes from a `meta` element.
//! Where the document declares no identifier, whatever looks like a book
//! number anywhere in its text stands in.

use vstd::prelude::*;
use crate::collisions::{digit_value, is_digit};
use crate::isbn::digit_of_char;
use crate::metadata::{
    described_opt, first_of, normalize_optional_description, ExtractedMetadata, ExtractedView,
};
use crate::patterns::{find_all, found, xml_unescape, xml_unescaped};
use crate::records::texts;
use crate::text::{chars_of, copy_string, same_text};

verus! {

/// One piece of a package document.
#[derive(Debug)]
pub enum OpfPiece {
    /// An opening tag: its qualified name, and the values of its attributes
    /// `name` and `content`, each empty where the tag has none.
    Open { name: String, attr_name: String, attr_content: String },
    /// An empty element, with the same three.
    Single { name: String, attr_name: String, attr_content: String },
    /// A run of text as it stands in the document, references unresolved.
    Text { raw: String },
    /// Anything else: a closing tag, a comment, a declaration.
    Other,
}

/// Mathematical value of an [`OpfPiece`].
pub enum OpfPieceView {
    Open { name: Seq<char>, attr_name: Seq<char>, attr_content: Seq<char> },
    Single { name: Seq<char>, attr_name: Seq<char>, attr_content: Seq<char> },
    Text { raw: Seq<char> },
    Other,
}

impl View for OpfPiece {
    type V = OpfPieceView;

    open spec fn view(&self) -> OpfPieceView {
        match self {
            OpfPiece::Open { name, attr_name, attr_content } => OpfPieceView::Open {
                name: name@,
                attr_name: attr_name@,
                attr_content: attr_content@,
            },
            OpfPiece::Single { name, attr_name, attr_content } => OpfPieceView::Single {
                name: name@,
                attr_name: attr_name@,
                attr_content: attr_content@,
            },
            OpfPiece::Text { raw } => OpfPieceView::Text { raw: raw@ },
            OpfPiece::Other => OpfPieceView::Other,
        }
    }
}

/// Views of the pieces of a document.
pub open spec fn piece_views(v: Seq<OpfPiece>) -> Seq<OpfPieceView> {
    Seq::new(v.len(), |i: int| v[i]@)
}

/// Why a package document could not be read.
#[derive(Clone, Copy, Debug, PartialEq, Eq, Structural)]
pub enum ExtractError {
    /// A run of text holds a reference that is malformed or unknown.
    MalformedText,
}

/// The expression that finds a year: four digits that stand alone.
pub open spec fn year_pattern() -> Seq<char> {
    "\\b(\\d{4})\\b"@
}

/// The expression that finds what looks like a book number.
pub open spec fn book_number_pattern() -> Seq<char> {
    "\\b(?:97[89][\\s-]?)?\\d{1,5}[\\s-]?\\d{1,7}[\\s-]?\\d{1,7}[\\s-]?[\\dX]\\b"@
}

/// The number that four decimal digits spell. The expression for a year
/// also matches digits of other scripts; those spell no year.
pub open spec fn year_of(m: Seq<char>) -> Option<i64> {
    if m.len() == 4 && is_digit(m[0]) && is_digit(m[1]) && is_digit(m[2]) && is_digit(m[3]) {
        Some(
            (digit_value(m[0]) * 1000 + digit_value(m[1]) * 100 + digit_value(m[2]) * 10
                + digit_value(m[3])) as i64,
        )
    } else {
        None
    }
}

/// The year that a date names: what the first group of four digits that
/// stands alone in it spells.
pub open spec fn year_in(text: Seq<char>) -> Option<i64> {
    let groups = found(year_pattern(), text);
    if groups.len() == 0 {
        None
    } else {
        year_of(groups[0])
    }
}

/// The year that a date names.
pub fn extract_year(text: &str) -> (year: Option<i64>)
    ensures
        year == year_in(text@),
{
    let groups = find_all("\\b(\\d{4})\\b", text);
    if groups.len() == 0 {
        return None;
    }
    assert(texts(groups@)[0] == groups@[0]@);
    let m = chars_of(groups[0].as_str());
    if m.len() != 4 {
        return None;
    }
    match (digit_of_char(m[0]), digit_of_char(m[1]), digit_of_char(m[2]), digit_of_char(m[3])) {
        (Some(a), Some(b), Some(c), Some(d)) => {
            Some((a as i64) * 1000 + (b as i64) * 100 + (c as i64) * 10 + (d as i64))
        },
        _ => None,
    }
}

/// Nothing found yet.
pub open spec fn nothing_found() -> ExtractedView {
    ExtractedView {
        title: None,
        authors: Seq::empty(),
        language: None,
        published_year: None,
        description: None,
        identifiers: Seq::empty(),
        series: None,
    }
}

/// What is found after a `meta` element with the attributes given: the
/// first one that names a series gives the series.
pub open spec fn with_series(
    known: ExtractedView,
    attr_name: Seq<char>,
    attr_content: Seq<char>,
) -> ExtractedView {
    if attr_name == "calibre:series"@ && known.series is None {
        ExtractedView { series: Some(attr_content), ..known }
    } else {
        known
    }
}

/// What is found after a run of text within the element `tag`.
pub open spec fn with_text(known: ExtractedView, tag: Seq<char>, text: Seq<char>) -> ExtractedView {
    if tag == "dc:title"@ {
        ExtractedView { title: first_of(known.title, Some(text)), ..known }
    } else if tag == "dc:creator"@ {
        if text.len() > 0 {
            ExtractedView { authors: known.authors.push(text), ..known }
        } else {
            known
        }
    } else if tag == "dc:language"@ {
        ExtractedView { language: first_of(known.language, Some(text)), ..known }
    } else if tag == "dc:identifier"@ {
        if text.len() > 0 {
            ExtractedView { identifiers: known.identifiers.push(text), ..known }
        } else {
            known
        }
    } else if tag == "dc:date"@ {
        ExtractedView { published_year: first_of(known.published_year, year_in(text)), ..known }
    } else if tag == "dc:description"@ {
        ExtractedView {
            description: first_of(known.description, described_opt(Some(text))),
            ..known
        }
    } else {
        known
    }
}

/// Where a reading stands: the name of the tag opened last, and what has
/// been found.
pub struct Reading {
    pub current: Seq<char>,
    pub known: ExtractedView,
}

/// A reading after one more piece; nothing where the piece is a text with
/// a reference that cannot be resolved. A closing tag does not end the
/// element opened last: text that follows it still counts for that element.
pub open spec fn after_piece(r: Reading, p: OpfPieceView) -> Option<Reading> {
    match p {
        OpfPieceView::Open { name, attr_name, attr_content } => Some(
            Reading {
                current: name,
                known: if name == "meta"@ {
                    with_series(r.known, attr_name, attr_content)
                } else {
                    r.known
                },
            },
        ),
        OpfPieceView::Single { name, attr_name, attr_content } => Some(
            Reading {
                current: r.current,
                known: if name == "meta"@ {
                    with_series(r.known, attr_name, attr_content)
                } else {
                    r.known
                },
            },
        ),
        OpfPieceView::Text { raw } => match xml_unescaped(raw) {
            None => None,
            Some(text) => Some(
                Reading { current: r.current, known: with_text(r.known, r.current, text) },
            ),
        },
        OpfPieceView::Other => Some(r),
    }
}

/// The reading after the first `n` pieces.
pub open spec fn read_upto(pieces: Seq<OpfPieceView>, n: int) -> Option<Reading>
    decreases n,
{
    if n <= 0 {
        Some(Reading { current: Seq::empty(), known: nothing_found() })
    } else {
        match read_upto(pieces, n - 1) {
            None => None,
            Some(r) => after_piece(r, pieces[n - 1]),
        }
    }
}

/// What a package document holds: what reading its pieces finds, with the
/// book numbers in its text for identifiers where it declares none.
pub open spec fn extracted(pieces: Seq<OpfPieceView>, document: Seq<char>) -> Option<
    ExtractedView,
> {
    match read_upto(pieces, pieces.len() as int) {
        None => None,
        Some(r) => Some(
            if r.known.identifiers.len() == 0 {
                ExtractedView { identifiers: found(book_number_pattern(), document), ..r.known }
            } else {
                r.known
            },
        ),
    }
}

/// A reading that has failed stays failed.
pub proof fn lemma_failed_reading(pieces: Seq<OpfPieceView>, n: int, m: int)
    requires
        n <= m,
        read_upto(pieces, n) is None,
    ensures
        read_upto(pieces, m) is None,
    decreases m - n,
{
    if n < m {
        lemma_failed_reading(pieces, n, m - 1);
    }
}

/// Takes in a `meta` element.
fn take_series(known: &mut ExtractedMetadata, attr_name: &str, attr_content: &str)
    ensures
        final(known)@ == with_series(old(known)@, attr_name@, attr_content@),
{
    if same_text(attr_name, "calibre:series") && known.series.is_none() {
        known.series = Some(copy_string(attr_content));
    }
}

/// Whether `text` is not empty.
fn holds_something(text: &str) -> (b: bool)
    ensures
        b == (text@.len() > 0),
{
    chars_of(text).len() > 0
}

/// Takes in a run of text within the element `tag`.
fn take_text(known: &mut ExtractedMetadata, tag: &str, text: String)
    ensures
        final(known)@ == with_text(old(known)@, tag@, text@),
{
    let ghost t = text@;
    if same_text(tag, "dc:title") {
        if known.title.is_none() {
            known.title = Some(text);
        }
    } else if same_text(tag, "dc:creator") {
        if holds_something(text.as_str()) {
            let ghost before = known.authors@;
            known.authors.push(text);
            assert(texts(known.authors@) =~= texts(before).push(t));
        }
    } else if same_text(tag, "dc:language") {
        if known.language.is_none() {
            known.language = Some(text);
        }
    } else if same_text(tag, "dc:identifier") {
        if holds_something(text.as_str()) {
            let ghost before = known.identifiers@;
            known.identifiers.push(text);
            assert(texts(known.identifiers@) =~= texts(before).push(t));
        }
    } else if same_text(tag, "dc:date") {
        if known.published_year.is_none() {
            known.published_year = extract_year(text.as_str());
        }
    } else if same_text(tag, "dc:description") {
        if known.description.is_none() {
            known.description = normalize_optional_description(Some(text));
        }
    }
}

/// Reads the metadata of a package document from its pieces. `document` is
/// the document as a whole. Fails exactly where a run of text holds a
/// reference that cannot be resolved.
pub fn parse_opf_metadata(pieces: &Vec<OpfPiece>, document: &str) -> (r: Result<
    ExtractedMetadata,
    ExtractError,
>)
    ensures
        match r {
            Ok(m) => extracted(piece_views(pieces@), document@) == Some(m@),
            Err(e) => extracted(piece_views(pieces@), document@) is None,
        },
{
    let ghost views = piece_views(pieces@);
    let mut current = String::new();
    let mut known = ExtractedMetadata {
        title: None,
        authors: Vec::new(),
        language: None,
        published_year: None,
        description: None,
        identifiers: Vec::new(),
        series: None,
    };
    assert(known@ == nothing_found()) by {
        assert(texts(known.authors@) =~= Seq::<Seq<char>>::empty());
        assert(texts(known.identifiers@) =~= Seq::<Seq<char>>::empty());
    }
    assert(current@ =~= Seq::<char>::empty());
    let mut i: usize = 0;
    while i < pieces.len()
        invariant
            i <= pieces.len(),
            views == piece_views(pieces@),
            read_upto(views, i as int) == Some(Reading { current: current@, known: known@ }),
        decreases pieces.len() - i,
    {
        assert(views[i as int] == pieces@[i as int]@);
        match &pieces[i] {
            OpfPiece::Open { name, attr_name, attr_content } => {
                current = copy_string(name.as_str());
                if same_text(name.as_str(), "meta") {
                    take_series(&mut known, attr_name.as_str(), attr_content.as_str());
                }
            },
            OpfPiece::Single { name, attr_name, attr_content } => {
                if same_text(name.as_str(), "meta") {
                    take_series(&mut known, attr_name.as_str(), attr_content.as_str());
                }
            },
            OpfPiece::Text { raw } => match xml_unescape(raw.as_str()) {
                None => {
                    proof {
                        assert(read_upto(views, i + 1) is None);
                        lemma_failed_reading(views, i + 1, views.len() as int);
                    }
                    return Err(ExtractError::MalformedText);
                },
                Some(text) => {
                    take_text(&mut known, current.as_str(), text);
                },
            },
            OpfPiece::Other => {},
        }
        i += 1;
    }
    if known.identifiers.len() == 0 {
        known.identifiers = find_all(
            "\\b(?:97[89][\\s-]?)?\\d{1,5}[\\s-]?\\d{1,7}[\\s-]?\\d{1,7}[\\s-]?[\\dX]\\b",
            document,
        );
    }
    Ok(known)
}

} // verus!
