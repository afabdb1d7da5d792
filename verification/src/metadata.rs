//! Merging embedded metadata into an item.
//!
//! What was extracted from a file is merged here:
//! a field that the item already has is kept, an empty one is filled in,
//! authors and identifiers are added unless already there, and an issue is
//! raised where title or author are still unknown.

use vstd::prelude::*;
use crate::isbn::normal_isbn;
use crate::patterns::{
    occurs, regex_matches, resolve_references, swap_all, swapped, xml_unescaped,
};
use crate::records::{
    copy_opt, identifier_views, issue_views, item_views, opt_view, texts, Identifier,
    IdentifierKind, IdentifierView, Issue, IssueKind, IssueView, Item, ItemView, Library,
    LibraryView,
};
use crate::scanner::{item_with_id, lemma_item_with_id};
use crate::text::{append, chars_of, copy_string, replaced, string_of_range, trimmed};

verus! {

/// The lines of `s`: what stands between its line feeds. There is always
/// at least one.
pub open spec fn lines_of(s: Seq<char>) -> Seq<Seq<char>>
    decreases s.len(),
{
    if s.len() == 0 {
        seq![Seq::<char>::empty()]
    } else {
        let front = lines_of(s.drop_last());
        if s.last() == '\n' {
            front.push(Seq::<char>::empty())
        } else {
            front.drop_last().push(front.last().push(s.last()))
        }
    }
}

/// A text always has a line.
pub proof fn lemma_lines_nonempty(s: Seq<char>)
    ensures
        lines_of(s).len() > 0,
    decreases s.len(),
{
    if s.len() > 0 {
        lemma_lines_nonempty(s.drop_last());
    }
}

/// The lines among `lines` that are not blank, each trimmed, joined by line
/// feeds.
pub open spec fn tidy_join(lines: Seq<Seq<char>>) -> Seq<char>
    decreases lines.len(),
{
    if lines.len() == 0 {
        Seq::empty()
    } else {
        let front = tidy_join(lines.drop_last());
        let line = trimmed(lines.last());
        if line.len() == 0 {
            front
        } else if front.len() == 0 {
            line
        } else {
            front + seq!['\n'] + line
        }
    }
}

/// `s` with its blank lines dropped and the others trimmed.
pub open spec fn tidy_lines(s: Seq<char>) -> Seq<char> {
    tidy_join(lines_of(s))
}

/// Drops blank lines and trims the others.
pub fn tidy(s: &str) -> (r: String)
    ensures
        r@ == tidy_lines(s@),
{
    let v = chars_of(s);
    let mut out = String::new();
    let mut start: usize = 0;
    let mut i: usize = 0;
    assert(v@.subrange(0, 0) =~= Seq::<char>::empty());
    assert(lines_of(Seq::<char>::empty()).drop_last() =~= Seq::<Seq<char>>::empty());
    assert(v@.subrange(0, 0) =~= lines_of(v@.subrange(0, 0)).last());
    while i < v.len()
        invariant
            start <= i <= v.len(),
            lines_of(v@.subrange(0, i as int)).len() > 0,
            out@ == tidy_join(lines_of(v@.subrange(0, i as int)).drop_last()),
            v@.subrange(start as int, i as int) == lines_of(v@.subrange(0, i as int)).last(),
        decreases v.len() - i,
    {
        let ghost before = v@.subrange(0, i as int);
        let ghost next = v@.subrange(0, i + 1);
        assert(next.drop_last() == before);
        assert(next.last() == v@[i as int]);
        if v[i] == '\n' {
            let line = string_of_range(&v, start, i);
            let t = crate::text::trim(line.as_str());
            assert(lines_of(next).drop_last() =~= lines_of(before));
            assert(lines_of(before).drop_last().push(lines_of(before).last()) =~= lines_of(before));
            if chars_of(t.as_str()).len() > 0 {
                if chars_of(out.as_str()).len() > 0 {
                    out.push('\n');
                }
                append(&mut out, t.as_str());
                assert(out@ =~= tidy_join(lines_of(before)));
            }
            start = i + 1;
            assert(v@.subrange(i + 1, i + 1) =~= Seq::<char>::empty());
        } else {
            assert(lines_of(next).drop_last() =~= lines_of(before).drop_last());
            assert(v@.subrange(start as int, i + 1) =~= v@.subrange(start as int, i as int).push(
                v@[i as int],
            ));
        }
        i += 1;
    }
    assert(v@.subrange(0, v.len() as int) == v@);
    let line = string_of_range(&v, start, v.len());
    let t = crate::text::trim(line.as_str());
    assert(lines_of(v@).drop_last().push(lines_of(v@).last()) =~= lines_of(v@));
    if chars_of(t.as_str()).len() > 0 {
        if chars_of(out.as_str()).len() > 0 {
            out.push('\n');
        }
        append(&mut out, t.as_str());
        assert(out@ =~= tidy_join(lines_of(v@)));
    }
    out
}

/// A description without markup: line breaks and the ends of blocks become
/// line feeds, list items get a hyphen, every other tag is dropped.
pub open spec fn without_markup(text: Seq<char>) -> Seq<char> {
    if regex_matches("(?is)<\\s*/?\\s*[a-z][^>]*>"@, text) == Some(true) {
        swapped(
            "(?is)<[^>]+>"@,
            swapped(
                "(?is)<li[^>]*>"@,
                swapped(
                    "(?is)</(p|div|li|ul|ol|h[1-6])>"@,
                    swapped("(?is)<br\\s*/?>"@, text, 0, "\n"@),
                    0,
                    "\n"@,
                ),
                0,
                "- "@,
            ),
            0,
            ""@,
        )
    } else {
        text
    }
}

/// The normal form of a description: references resolved where they are
/// well-formed, no-break spaces as spaces, markup removed, line ends as
/// line feeds, blank lines dropped and the others trimmed.
pub open spec fn described(raw: Seq<char>) -> Seq<char> {
    let decoded = replaced(
        match xml_unescaped(raw) {
            Some(t) => t,
            None => raw,
        },
        seq!['\u{a0}'],
        seq![' '],
    );
    tidy_lines(
        replaced(replaced(without_markup(decoded), seq!['\r', '\n'], seq!['\n']), seq!['\r'], seq![
            '\n',
        ]),
    )
}

/// The normal form of an optional description: nothing where there is no
/// description or where nothing is left of it.
pub open spec fn described_opt(value: Option<Seq<char>>) -> Option<Seq<char>> {
    match value {
        None => None,
        Some(raw) => if described(raw).len() == 0 {
            None
        } else {
            Some(described(raw))
        },
    }
}

/// A one-character string.
fn single(c: char) -> (s: String)
    ensures
        s@ == seq![c],
{
    let mut s = String::new();
    s.push(c);
    assert(s@ =~= seq![c]);
    s
}

/// Brings a description into its normal form.
pub fn normalize_optional_description(value: Option<String>) -> (r: Option<String>)
    ensures
        opt_view(r) == described_opt(opt_view(value)),
{
    let raw = match value {
        None => {
            return None;
        },
        Some(raw) => raw,
    };
    let resolved = resolve_references(raw);
    let nbsp = single('\u{a0}');
    let space = single(' ');
    let decoded = crate::text::replace(resolved.as_str(), nbsp.as_str(), space.as_str());
    let marked = occurs("(?is)<\\s*/?\\s*[a-z][^>]*>", decoded.as_str());
    let plain = if marked {
        let a = swap_all("(?is)<br\\s*/?>", decoded, "\n");
        let b = swap_all("(?is)</(p|div|li|ul|ol|h[1-6])>", a, "\n");
        let c = swap_all("(?is)<li[^>]*>", b, "- ");
        swap_all("(?is)<[^>]+>", c, "")
    } else {
        decoded
    };
    let cr = single('\r');
    let lf = single('\n');
    let mut crlf = single('\r');
    crlf.push('\n');
    assert(crlf@ =~= seq!['\r', '\n']);
    let unix = crate::text::replace(plain.as_str(), crlf.as_str(), lf.as_str());
    let unix = crate::text::replace(unix.as_str(), cr.as_str(), lf.as_str());
    let lines = tidy(unix.as_str());
    if chars_of(lines.as_str()).len() == 0 {
        None
    } else {
        Some(lines)
    }
}

/// What was found embedded in a file.
#[derive(Debug)]
pub struct ExtractedMetadata {
    pub title: Option<String>,
    pub authors: Vec<String>,
    pub language: Option<String>,
    pub published_year: Option<i64>,
    pub description: Option<String>,
    pub identifiers: Vec<String>,
    pub series: Option<String>,
}

/// Mathematical value of an [`ExtractedMetadata`].
pub struct ExtractedView {
    pub title: Option<Seq<char>>,
    pub authors: Seq<Seq<char>>,
    pub language: Option<Seq<char>>,
    pub published_year: Option<i64>,
    pub description: Option<Seq<char>>,
    pub identifiers: Seq<Seq<char>>,
    pub series: Option<Seq<char>>,
}

impl View for ExtractedMetadata {
    type V = ExtractedView;

    open spec fn view(&self) -> ExtractedView {
        ExtractedView {
            title: opt_view(self.title),
            authors: texts(self.authors@),
            language: opt_view(self.language),
            published_year: self.published_year,
            description: opt_view(self.description),
            identifiers: texts(self.identifiers@),
            series: opt_view(self.series),
        }
    }
}

/// Why metadata could not be merged.
#[derive(Clone, Copy, Debug, PartialEq, Eq, Structural)]
pub enum MetadataError {
    /// No item bears the identifier given.
    UnknownItem,
}

/// The first of two optional values that is there.
pub open spec fn first_of<T>(kept: Option<T>, offered: Option<T>) -> Option<T> {
    match kept {
        Some(v) => Some(v),
        None => offered,
    }
}

/// `known` with those of `offered` added that it does not hold yet.
pub open spec fn with_names(known: Seq<Seq<char>>, offered: Seq<Seq<char>>) -> Seq<Seq<char>>
    decreases offered.len(),
{
    if offered.len() == 0 {
        known
    } else {
        let front = with_names(known, offered.drop_last());
        if front.contains(offered.last()) {
            front
        } else {
            front.push(offered.last())
        }
    }
}

/// The identifier that a raw value stands for: a valid book number in its
/// normal form, anything else as it is; its kind goes by its length in
/// bytes.
pub open spec fn identifier_of(raw: Seq<char>) -> IdentifierView {
    let value = match normal_isbn(raw) {
        Some(n) => n,
        None => raw,
    };
    let len = vstd::utf8::encode_utf8(value).len();
    IdentifierView {
        kind: if len == 10 {
            IdentifierKind::Isbn10
        } else if len == 13 {
            IdentifierKind::Isbn13
        } else {
            IdentifierKind::Other
        },
        value,
    }
}

/// `known` with the identifiers of `offered` added that it does not hold
/// yet.
pub open spec fn with_identifiers(known: Seq<IdentifierView>, offered: Seq<Seq<char>>) -> Seq<
    IdentifierView,
>
    decreases offered.len(),
{
    if offered.len() == 0 {
        known
    } else {
        let front = with_identifiers(known, offered.drop_last());
        if front.contains(identifier_of(offered.last())) {
            front
        } else {
            front.push(identifier_of(offered.last()))
        }
    }
}

/// An item after metadata has been merged into it: what it had it keeps,
/// what it lacked is filled in.
pub open spec fn merged(item: ItemView, found: ExtractedView, now: i64) -> ItemView {
    ItemView {
        title: first_of(item.title, found.title),
        language: first_of(item.language, found.language),
        published_year: first_of(item.published_year, found.published_year),
        description: described_opt(first_of(item.description, found.description)),
        series: first_of(item.series, found.series),
        authors: with_names(item.authors, found.authors),
        identifiers: with_identifiers(item.identifiers, found.identifiers),
        updated_at: now,
        ..item
    }
}

/// What is still missing after a merge, as the issue's message says it; or
/// nothing where both title and author are known.
pub open spec fn missing_note(item: ItemView, found: ExtractedView) -> Option<Seq<char>> {
    let no_title = first_of(item.title, found.title) is None;
    let no_author = found.authors.len() == 0;
    if no_title && no_author {
        Some("Missing metadata: title, author."@)
    } else if no_title {
        Some("Missing metadata: title."@)
    } else if no_author {
        Some("Missing metadata: author."@)
    } else {
        None
    }
}

/// The issue table after a merge.
pub open spec fn issues_after_merge(
    issues: Seq<IssueView>,
    item: ItemView,
    found: ExtractedView,
    now: i64,
) -> Seq<IssueView> {
    match missing_note(item, found) {
        None => issues,
        Some(message) => issues.push(
            IssueView {
                item_id: item.id,
                file_id: None,
                kind: IssueKind::MissingMetadata,
                message,
                created_at: now,
                resolved_at: None,
            },
        ),
    }
}

/// Whether `list` holds an identifier equal to `x`.
fn holds_identifier(list: &Vec<Identifier>, x: &Identifier) -> (b: bool)
    ensures
        b == identifier_views(list@).contains(x@),
{
    let mut i: usize = 0;
    while i < list.len()
        invariant
            i <= list.len(),
            forall|k: int| 0 <= k < i ==> identifier_views(list@)[k] != x@,
        decreases list.len() - i,
    {
        let same_kind = match (list[i].kind, x.kind) {
            (IdentifierKind::Isbn10, IdentifierKind::Isbn10) => true,
            (IdentifierKind::Isbn13, IdentifierKind::Isbn13) => true,
            (IdentifierKind::Other, IdentifierKind::Other) => true,
            _ => false,
        };
        if same_kind && crate::text::same_text(list[i].value.as_str(), x.value.as_str()) {
            assert(identifier_views(list@)[i as int] == x@);
            return true;
        }
        i += 1;
    }
    false
}

/// The identifier that a raw value stands for.
pub fn classify_identifier(raw: &str) -> (id: Identifier)
    ensures
        id@ == identifier_of(raw@),
{
    let value = match crate::isbn::normalize_isbn(raw) {
        Some(n) => n,
        None => copy_string(raw),
    };
    let len = crate::text::byte_len(value.as_str());
    let kind = if len == 10 {
        IdentifierKind::Isbn10
    } else if len == 13 {
        IdentifierKind::Isbn13
    } else {
        IdentifierKind::Other
    };
    Identifier { kind, value }
}

impl Library {
    /// Merges what was found embedded in a file into the item `item_id`.
    ///
    /// Title, language, year, description and series are filled in where
    /// the item has none: what is there wins over what was found. The
    /// description is brought into its normal form either way. Authors and
    /// identifiers are added unless the item has them already. Where the
    /// title is still unknown afterwards, or no author was found, an issue
    /// says so. Nothing changes where no item bears the identifier.
    pub fn apply_metadata(&mut self, item_id: &str, found: &ExtractedMetadata, now: i64) -> (r:
        Result<(), MetadataError>)
        ensures
            match item_with_id(old(self)@.items, item_id@) {
                None => r == Err::<(), MetadataError>(MetadataError::UnknownItem) && final(self)@
                    == old(self)@,
                Some(i) => {
                    &&& r == Ok::<(), MetadataError>(())
                    &&& final(self)@ == (LibraryView {
                        items: old(self)@.items.update(
                            i,
                            merged(old(self)@.items[i], found@, now),
                        ),
                        issues: issues_after_merge(
                            old(self)@.issues,
                            old(self)@.items[i],
                            found@,
                            now,
                        ),
                        ..old(self)@
                    })
                },
            },
    {
        proof {
            lemma_item_with_id(self@.items, item_id@);
        }
        let i = match self.find_item(item_id) {
            None => {
                return Err(MetadataError::UnknownItem);
            },
            Some(i) => i,
        };
        let item = &self.items[i];
        assert(self@.items[i as int] == item@);
        let title = match &item.title {
            Some(t) => Some(t.clone()),
            None => copy_opt(&found.title),
        };
        let language = match &item.language {
            Some(t) => Some(t.clone()),
            None => copy_opt(&found.language),
        };
        let published_year = match item.published_year {
            Some(y) => Some(y),
            None => found.published_year,
        };
        let description = normalize_optional_description(
            match &item.description {
                Some(t) => Some(t.clone()),
                None => copy_opt(&found.description),
            },
        );
        let series = match &item.series {
            Some(t) => Some(t.clone()),
            None => copy_opt(&found.series),
        };
        let mut authors: Vec<String> = Vec::new();
        let mut a: usize = 0;
        while a < item.authors.len()
            invariant
                a <= item.authors.len(),
                authors.len() == a,
                forall|k: int| 0 <= k < a ==> (#[trigger] authors@[k])@ == item.authors@[k]@,
            decreases item.authors.len() - a,
        {
            authors.push(item.authors[a].clone());
            a += 1;
        }
        assert(texts(authors@) =~= item@.authors);
        let ghost offered = found@.authors;
        let mut n: usize = 0;
        assert(offered.subrange(0, 0) =~= Seq::<Seq<char>>::empty());
        while n < found.authors.len()
            invariant
                n <= found.authors.len(),
                offered == texts(found.authors@),
                texts(authors@) == with_names(item@.authors, offered.subrange(0, n as int)),
            decreases found.authors.len() - n,
        {
            let ghost next = offered.subrange(0, n + 1);
            assert(next.drop_last() == offered.subrange(0, n as int));
            assert(next.last() == found.authors@[n as int]@);
            if !crate::scanner::holds_text(&authors, found.authors[n].as_str()) {
                let ghost before = texts(authors@);
                authors.push(found.authors[n].clone());
                assert(texts(authors@) =~= before.push(found.authors@[n as int]@));
            }
            n += 1;
        }
        assert(offered.subrange(0, n as int) == offered);
        let mut identifiers: Vec<Identifier> = Vec::new();
        let mut d: usize = 0;
        while d < item.identifiers.len()
            invariant
                d <= item.identifiers.len(),
                identifiers.len() == d,
                forall|k: int|
                    0 <= k < d ==> (#[trigger] identifiers@[k])@ == item.identifiers@[k]@,
            decreases item.identifiers.len() - d,
        {
            identifiers.push(
                Identifier {
                    kind: item.identifiers[d].kind,
                    value: item.identifiers[d].value.clone(),
                },
            );
            d += 1;
        }
        assert(identifier_views(identifiers@) =~= item@.identifiers);
        let ghost raws = found@.identifiers;
        let mut m: usize = 0;
        assert(raws.subrange(0, 0) =~= Seq::<Seq<char>>::empty());
        while m < found.identifiers.len()
            invariant
                m <= found.identifiers.len(),
                raws == texts(found.identifiers@),
                identifier_views(identifiers@) == with_identifiers(
                    item@.identifiers,
                    raws.subrange(0, m as int),
                ),
            decreases found.identifiers.len() - m,
        {
            let ghost next = raws.subrange(0, m + 1);
            assert(next.drop_last() == raws.subrange(0, m as int));
            assert(next.last() == found.identifiers@[m as int]@);
            let id = classify_identifier(found.identifiers[m].as_str());
            if !holds_identifier(&identifiers, &id) {
                let ghost before = identifier_views(identifiers@);
                identifiers.push(id);
                assert(identifier_views(identifiers@) =~= before.push(
                    identifier_of(found.identifiers@[m as int]@),
                ));
            }
            m += 1;
        }
        assert(raws.subrange(0, m as int) == raws);
        let no_title = title.is_none();
        let no_author = found.authors.len() == 0;
        let message = if no_title && no_author {
            Some(copy_string("Missing metadata: title, author."))
        } else if no_title {
            Some(copy_string("Missing metadata: title."))
        } else if no_author {
            Some(copy_string("Missing metadata: author."))
        } else {
            None
        };
        assert(opt_view(message) == missing_note(item@, found@));
        let updated = Item {
            id: item.id.clone(),
            title,
            language,
            published_year,
            description,
            series,
            authors,
            identifiers,
            created_at: item.created_at,
            updated_at: now,
        };
        assert(updated@ == merged(item@, found@, now));
        let owner = updated.id.clone();
        self.items.set(i, updated);
        assert(item_views(self.items@) =~= old(self)@.items.update(
            i as int,
            merged(old(self)@.items[i as int], found@, now),
        ));
        match message {
            None => {},
            Some(text) => {
                self.issues.push(
                    Issue {
                        item_id: owner,
                        file_id: None,
                        kind: IssueKind::MissingMetadata,
                        message: text,
                        created_at: now,
                        resolved_at: None,
                    },
                );
            },
        }
        assert(issue_views(self.issues@) =~= issues_after_merge(
            old(self)@.issues,
            old(self)@.items[i as int],
            found@,
            now,
        ));
        Ok(())
    }
}

/// First write wins. Merging never replaces a title, language, year or
/// series that the item already has, keeps every author and identifier the
/// item had, in place, and changes neither the item's identifier nor the
/// time of its creation.
pub proof fn law_first_write_wins(item: ItemView, found: ExtractedView, now: i64)
    ensures
        ({
            let after = merged(item, found, now);
            &&& after.id == item.id
            &&& after.created_at == item.created_at
            &&& item.title is Some ==> after.title == item.title
            &&& item.language is Some ==> after.language == item.language
            &&& item.published_year is Some ==> after.published_year == item.published_year
            &&& item.series is Some ==> after.series == item.series
            &&& item.title is None ==> after.title == found.title
            &&& item.authors.is_prefix_of(after.authors)
            &&& item.identifiers.is_prefix_of(after.identifiers)
        }),
{
    lemma_names_kept(item.authors, found.authors);
    lemma_identifiers_kept(item.identifiers, found.identifiers);
}

/// Adding names keeps the names that were there, in place.
pub proof fn lemma_names_kept(known: Seq<Seq<char>>, offered: Seq<Seq<char>>)
    ensures
        known.is_prefix_of(with_names(known, offered)),
    decreases offered.len(),
{
    if offered.len() == 0 {
        assert(known.is_prefix_of(known));
    } else {
        lemma_names_kept(known, offered.drop_last());
        let front = with_names(known, offered.drop_last());
        if !front.contains(offered.last()) {
            assert(known.is_prefix_of(front.push(offered.last())));
        }
    }
}

/// Adding identifiers keeps the identifiers that were there, in place.
pub proof fn lemma_identifiers_kept(known: Seq<IdentifierView>, offered: Seq<Seq<char>>)
    ensures
        known.is_prefix_of(with_identifiers(known, offered)),
    decreases offered.len(),
{
    if offered.len() == 0 {
        assert(known.is_prefix_of(known));
    } else {
        lemma_identifiers_kept(known, offered.drop_last());
        let front = with_identifiers(known, offered.drop_last());
        if !front.contains(identifier_of(offered.last())) {
            assert(known.is_prefix_of(front.push(identifier_of(offered.last()))));
        }
    }
}

} // verus!
