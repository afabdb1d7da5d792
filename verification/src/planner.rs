//! The organize planner.
//!
//! Planning is a computation on values: the rows of the files to organize, a
//! path template, a layout mode, and a listing of the paths that exist on
//! disk. It renders the template into a path below the library root, decides
//! whether a file already sits where it belongs, and otherwise picks the
//! first free name by appending a bracketed index to the file stem.

use vstd::prelude::*;
use crate::collisions::{
    all_differ, is_digit, lemma_decimal, lemma_first_free, lemma_joined_differ,
    lemma_numbered_names_differ, numbered_name,
};
use crate::paths::{
    directory_of, extension_of, file_stem_of, joined, parent_of, stripped, with_file_name_of,
};
use crate::records::{opt_view, texts};
use crate::text::{
    chars_of, collapsed, copy_string, decimal, is_space, replaced, signed_decimal,
    string_of_range,
};

verus! {

/// Whether a character may not appear in a file name on some file system.
pub open spec fn is_illegal(c: char) -> bool {
    c == '\\' || c == '/' || c == ':' || c == '*' || c == '?' || c == '"' || c == '<' || c == '>'
        || c == '|'
}

/// `s` with every illegal character replaced by a hyphen.
pub open spec fn made_safe(s: Seq<char>) -> Seq<char> {
    Seq::new(
        s.len(),
        |i: int|
            if is_illegal(s[i]) {
                '-'
            } else {
                s[i]
            },
    )
}

/// A template field as it enters a path: illegal characters replaced, white
/// space collapsed.
pub open spec fn sanitized(s: Seq<char>) -> Seq<char> {
    collapsed(made_safe(s))
}

/// Makes a template field fit for a path: every character that some file
/// system refuses becomes a hyphen, every run of white space becomes one
/// space, and white space at either end is dropped.
pub fn sanitize(value: &str) -> (r: String)
    ensures
        r@ == sanitized(value@),
{
    let v = chars_of(value);
    let mut safe = String::new();
    let mut i: usize = 0;
    while i < v.len()
        invariant
            i <= v.len(),
            safe@ == made_safe(v@).subrange(0, i as int),
        decreases v.len() - i,
    {
        let c = v[i];
        let d = if c == '\\' || c == '/' || c == ':' || c == '*' || c == '?' || c == '"' || c == '<'
            || c == '>' || c == '|' {
            '-'
        } else {
            c
        };
        safe.push(d);
        assert(made_safe(v@).subrange(0, i + 1) == made_safe(v@).subrange(0, i as int).push(d));
        i += 1;
    }
    assert(made_safe(v@).subrange(0, v.len() as int) == made_safe(v@));
    crate::text::collapse(safe.as_str())
}

/// `s` without its leading dots.
pub open spec fn undotted(s: Seq<char>) -> Seq<char>
    decreases s.len(),
{
    if s.len() > 0 && s[0] == '.' {
        undotted(s.drop_first())
    } else {
        s
    }
}

/// The text that stands for the year of publication.
pub open spec fn year_text(year: Option<i64>) -> Seq<char> {
    match year {
        Some(y) => signed_decimal(y as int),
        None => "Unknown"@,
    }
}

/// The text that stands for the primary identifier.
pub open spec fn isbn_text(isbn13: Option<Seq<char>>) -> Seq<char> {
    match isbn13 {
        Some(v) => v,
        None => "Unknown"@,
    }
}

/// The template with its placeholders filled in, one placeholder after the
/// other: author, title, year, primary identifier, extension. Every field
/// is sanitized before it goes in.
pub open spec fn rendered(
    template: Seq<char>,
    author: Seq<char>,
    title: Seq<char>,
    year: Option<i64>,
    isbn13: Option<Seq<char>>,
    extension: Seq<char>,
) -> Seq<char> {
    replaced(
        replaced(
            replaced(
                replaced(
                    replaced(template, "{Author}"@, sanitized(author)),
                    "{Title}"@,
                    sanitized(title),
                ),
                "{Year}"@,
                sanitized(year_text(year)),
            ),
            "{ISBN13}"@,
            sanitized(isbn_text(isbn13)),
        ),
        "{ext}"@,
        sanitized(undotted(extension)),
    )
}

/// `s` without its leading dots.
pub fn strip_dots(s: &str) -> (r: String)
    ensures
        r@ == undotted(s@),
{
    let v = chars_of(s);
    let mut i: usize = 0;
    assert(v@.subrange(0, v.len() as int) == v@);
    while i < v.len() && v[i] == '.'
        invariant
            i <= v.len(),
            undotted(v@) == undotted(v@.subrange(i as int, v.len() as int)),
        decreases v.len() - i,
    {
        assert(v@.subrange(i as int, v.len() as int).drop_first() == v@.subrange(
            i + 1,
            v.len() as int,
        ));
        i += 1;
    }
    string_of_range(&v, i, v.len())
}

/// Renders a path template. `{Author}` and `{Title}` are filled with author
/// and title, `{Year}` with the year in decimal, `{ISBN13}` with the
/// identifier, each of the last two with `Unknown` where it is absent, and
/// `{ext}` with the extension without leading dots. Every field is
/// sanitized before it goes in.
pub fn render_template(
    template: &str,
    author: &str,
    title: &str,
    year: Option<i64>,
    isbn13: Option<&str>,
    extension: &str,
) -> (r: String)
    ensures
        r@ == rendered(
            template@,
            author@,
            title@,
            year,
            match isbn13 {
                Some(v) => Some(v@),
                None => None,
            },
            extension@,
        ),
{
    let author = sanitize(author);
    let title = sanitize(title);
    let year = match year {
        Some(y) => crate::text::format_integer(y),
        None => copy_string("Unknown"),
    };
    let year = sanitize(year.as_str());
    let isbn = match isbn13 {
        Some(v) => sanitize(v),
        None => sanitize("Unknown"),
    };
    let ext = sanitize(strip_dots(extension).as_str());
    let a = crate::text::replace(template, "{Author}", author.as_str());
    let b = crate::text::replace(a.as_str(), "{Title}", title.as_str());
    let c = crate::text::replace(b.as_str(), "{Year}", year.as_str());
    let d = crate::text::replace(c.as_str(), "{ISBN13}", isbn.as_str());
    crate::text::replace(d.as_str(), "{ext}", ext.as_str())
}

/// The file name that stands in for `stem` and `ext` at collision index
/// `index`: the stem, a space, the index in square brackets, and the
/// extension.
pub open spec fn collision_name(stem: Seq<char>, index: nat, ext: Seq<char>) -> Seq<char> {
    numbered_name(stem, '[', ']', index, ext)
}

/// The stem that collision names are built on.
pub open spec fn stem_or_default(base: Seq<char>) -> Seq<char> {
    match file_stem_of(base) {
        Some(s) => s,
        None => "file"@,
    }
}

/// The extension that collision names are built on.
pub open spec fn extension_or_none(base: Seq<char>) -> Seq<char> {
    match extension_of(base) {
        Some(e) => e,
        None => Seq::<char>::empty(),
    }
}

/// The path tried at collision index `index`: the proposed path itself at
/// index 0, then the same directory with the indexed file name.
pub open spec fn candidate(base: Seq<char>, index: nat) -> Seq<char> {
    if index == 0 {
        base
    } else {
        with_file_name_of(
            base,
            collision_name(stem_or_default(base), index, extension_or_none(base)),
        )
    }
}

/// The candidates for a proposed path, by collision index.
pub open spec fn candidates(base: Seq<char>) -> spec_fn(nat) -> Seq<char> {
    |k: nat| candidate(base, k)
}

/// Whether `index` is the first collision index whose path is free.
pub open spec fn is_first_free(base: Seq<char>, occupied: Seq<Seq<char>>, index: nat) -> bool {
    crate::collisions::is_first_free(candidates(base), occupied, index)
}

/// The first collision index whose path is free.
pub open spec fn first_free(base: Seq<char>, occupied: Seq<Seq<char>>) -> nat {
    crate::collisions::first_free(candidates(base), occupied)
}

/// The path that collision resolution settles on.
pub open spec fn resolved(base: Seq<char>, occupied: Seq<Seq<char>>) -> Seq<char> {
    candidate(base, first_free(base, occupied))
}

/// Candidate paths for different indices from 1 on differ.
pub proof fn lemma_candidates_differ(base: Seq<char>)
    ensures
        all_differ(candidates(base)),
{
    let stem = stem_or_default(base);
    let ext = extension_or_none(base);
    let dir = directory_of(base);
    assert forall|a: nat, b: nat|
        a >= 1 && b >= 1 && #[trigger] candidates(base)(a) == #[trigger] candidates(base)(
            b,
        ) implies a == b by {
        let na = collision_name(stem, a, ext);
        let nb = collision_name(stem, b, ext);
        lemma_decimal(a);
        lemma_decimal(b);
        assert(na.len() > 0 && nb.len() > 0);
        // Both names begin alike, so both are joined to the directory alike.
        assert(na[0] == nb[0]) by {
            if stem.len() > 0 {
                assert(na[0] == stem[0] && nb[0] == stem[0]);
            } else {
                assert(na[0] == ' ' && nb[0] == ' ');
            }
        }
        lemma_joined_differ(dir, na, nb);
        lemma_numbered_names_differ(stem, '[', ']', ext, a, b);
    }
}

/// Collision-safe planning. Whatever exists on disk, collision resolution
/// settles on a path: there is a first free collision index, it is at most
/// one more than the number of existing paths, the path at that index does
/// not exist yet, and the path at every smaller index does.
pub proof fn law_resolution_is_free(base: Seq<char>, occupied: Seq<Seq<char>>)
    ensures
        is_first_free(base, occupied, first_free(base, occupied)),
        first_free(base, occupied) <= occupied.len() + 1,
        !occupied.contains(resolved(base, occupied)),
        forall|j: nat|
            j < first_free(base, occupied) ==> occupied.contains(#[trigger] candidate(base, j)),
        !occupied.contains(base) ==> resolved(base, occupied) == base,
        occupied.contains(base) ==> first_free(base, occupied) >= 1,
{
    let slots = candidates(base);
    lemma_candidates_differ(base);
    lemma_first_free(slots, occupied);
    let f = first_free(base, occupied);
    assert(slots(f) == candidate(base, f));
    assert forall|j: nat| j < f implies occupied.contains(#[trigger] candidate(base, j)) by {
        assert(occupied.contains(slots(j)));
    }
    if !occupied.contains(base) && f > 0 {
        assert(occupied.contains(slots(0)));
    }
}

/// Resolves a collision at `library_root / relative`. Where that path does
/// not exist it is the answer. Otherwise the file stem gets a bracketed
/// index, counting from 1, and the first path that does not exist is the
/// answer. `occupied` lists the paths that exist.
pub fn resolve_collision(library_root: &str, relative: &str, occupied: &Vec<String>) -> (r: String)
    ensures
        r@ == resolved(joined(library_root@, relative@), texts(occupied@)),
        !texts(occupied@).contains(r@),
{
    let base = crate::paths::join(library_root, relative);
    let ghost occ = texts(occupied@);
    let ghost slots = candidates(base@);
    proof {
        law_resolution_is_free(base@, occ);
    }
    if !crate::scanner::holds_text(occupied, base.as_str()) {
        return base;
    }
    let stem = match crate::paths::file_stem(base.as_str()) {
        Some(s) => s,
        None => copy_string("file"),
    };
    let ext = match crate::paths::extension(base.as_str()) {
        Some(e) => e,
        None => String::new(),
    };
    let ghost goal = first_free(base@, occ);
    let count = occupied.len();
    let mut index: u128 = 1;
    loop
        invariant
            1 <= index <= goal,
            goal == first_free(base@, occ),
            goal <= occ.len() + 1,
            occ.len() == count,
            occ == texts(occupied@),
            base@ == joined(library_root@, relative@),
            slots == candidates(base@),
            is_first_free(base@, occ, goal),
            stem@ == stem_or_default(base@),
            ext@ == extension_or_none(base@),
        decreases goal - index,
    {
        let name = crate::collisions::indexed_name(stem.as_str(), '[', ']', index, ext.as_str());
        let path = crate::paths::with_file_name(base.as_str(), name.as_str());
        assert(path@ == slots(index as nat));
        if !crate::scanner::holds_text(occupied, path.as_str()) {
            assert(index == goal) by {
                if index < goal {
                    assert(occ.contains(slots(index as nat)));
                }
            }
            return path;
        }
        assert(slots(goal) == candidate(base@, goal));
        index += 1;
    }
}

/// Number of decimal digits at the end of `s`.
pub open spec fn trailing_digits(s: Seq<char>) -> nat
    decreases s.len(),
{
    if s.len() > 0 && is_digit(s.last()) {
        trailing_digits(s.drop_last()) + 1
    } else {
        0
    }
}

/// The stem that `stem` is a collision variant of: `stem` must end in a
/// white space character, an opening bracket, one or more decimal digits and
/// a closing bracket; the base is what stands before.
pub open spec fn suffix_base(stem: Seq<char>) -> Option<Seq<char>> {
    if stem.len() == 0 || stem.last() != ']' {
        None
    } else {
        let body = stem.drop_last();
        let n = trailing_digits(body);
        let cut = body.len() - n;
        if n == 0 || cut < 2 || body[cut - 1] != '[' || !is_space(body[cut - 2]) {
            None
        } else {
            Some(body.subrange(0, cut - 2))
        }
    }
}

/// Whether `c` is one of `0` to `9`.
pub fn is_decimal_digit(c: char) -> (b: bool)
    ensures
        b == is_digit(c),
{
    c == '0' || c == '1' || c == '2' || c == '3' || c == '4' || c == '5' || c == '6' || c == '7'
        || c == '8' || c == '9'
}

/// The stem that `stem` is a collision variant of, if it is one.
#[verifier::loop_isolation(false)]
pub fn collision_base(stem: &str) -> (base: Option<String>)
    ensures
        opt_view(base) == suffix_base(stem@),
{
    let v = chars_of(stem);
    if v.len() == 0 || v[v.len() - 1] != ']' {
        return None;
    }
    let end = v.len() - 1;
    let ghost body = v@.drop_last();
    let mut cut: usize = end;
    assert(body.subrange(0, end as int) == body);
    while cut > 0 && is_decimal_digit(v[cut - 1])
        invariant
            cut <= end == v.len() - 1,
            body == v@.drop_last(),
            trailing_digits(body) == trailing_digits(body.subrange(0, cut as int)) + (end - cut),
        decreases cut,
    {
        assert(body.subrange(0, cut as int).last() == v@[cut - 1]);
        assert(body.subrange(0, cut as int).drop_last() == body.subrange(0, cut - 1));
        cut -= 1;
    }
    proof {
        if cut > 0 {
            assert(body.subrange(0, cut as int).last() == v@[cut - 1]);
        }
        assert(trailing_digits(body) == end - cut);
    }
    if cut == end || cut < 2 || v[cut - 1] != '[' || !crate::text::char_is_space(v[cut - 2]) {
        return None;
    }
    assert(body.subrange(0, cut - 2) =~= v@.subrange(0, cut - 2));
    Some(string_of_range(&v, 0, cut - 2))
}

/// A string that ends in a run of digits after something that is not a
/// digit has exactly that many trailing digits.
pub proof fn lemma_trailing_digits(head: Seq<char>, digits: Seq<char>)
    requires
        head.len() == 0 || !is_digit(head.last()),
        forall|i: int| 0 <= i < digits.len() ==> is_digit(#[trigger] digits[i]),
    ensures
        trailing_digits(head + digits) == digits.len(),
    decreases digits.len(),
{
    if digits.len() == 0 {
        assert(head + digits =~= head);
    } else {
        assert((head + digits).last() == digits.last());
        assert((head + digits).drop_last() =~= head + digits.drop_last());
        lemma_trailing_digits(head, digits.drop_last());
    }
}

/// A stem that collision resolution produced is recognised as a variant of
/// the stem it was built on, whatever the stem and the index: appending a
/// space and a bracketed number and stripping the suffix again gives the
/// stem back.
pub proof fn law_collision_suffix_round_trip(stem: Seq<char>, index: nat)
    ensures
        suffix_base(collision_name(stem, index, Seq::<char>::empty())) == Some(stem),
{
    lemma_decimal(index);
    let d = decimal(index);
    let name = collision_name(stem, index, Seq::<char>::empty());
    let head = stem + seq![' ', '['];
    let body = name.drop_last();
    assert(name =~= head + d + seq![']']);
    assert(body =~= head + d);
    assert(head.last() == '[');
    lemma_trailing_digits(head, d);
    let cut = body.len() - d.len();
    assert(cut == stem.len() + 2);
    assert(body[cut - 1] == '[');
    assert(body[cut - 2] == ' ');
    assert(body.subrange(0, cut - 2) =~= stem);
}

/// Layout mode of an organize operation.
#[derive(Clone, Copy, Debug, PartialEq, Eq, Structural)]
pub enum LayoutMode {
    /// Files are moved into the library.
    Move,
    /// Files are copied into the library.
    Copy,
    /// Files stay where they are; the plan is advisory.
    Reference,
}

/// What a plan entry asks for.
#[derive(Clone, Copy, Debug, PartialEq, Eq, Structural)]
pub enum PlanAction {
    Skip,
    Copy,
    Move,
}

/// One active file with what the template needs to know about its item.
#[derive(Debug)]
pub struct PlanInput {
    pub file_id: String,
    pub source_path: String,
    pub extension: String,
    pub title: Option<String>,
    pub published_year: Option<i64>,
    /// The authors' names, separated by commas.
    pub authors: Option<String>,
    pub isbn13: Option<String>,
}

/// Mathematical value of a [`PlanInput`].
pub struct PlanInputView {
    pub file_id: Seq<char>,
    pub source_path: Seq<char>,
    pub extension: Seq<char>,
    pub title: Option<Seq<char>>,
    pub published_year: Option<i64>,
    pub authors: Option<Seq<char>>,
    pub isbn13: Option<Seq<char>>,
}

impl View for PlanInput {
    type V = PlanInputView;

    open spec fn view(&self) -> PlanInputView {
        PlanInputView {
            file_id: self.file_id@,
            source_path: self.source_path@,
            extension: self.extension@,
            title: opt_view(self.title),
            published_year: self.published_year,
            authors: opt_view(self.authors),
            isbn13: opt_view(self.isbn13),
        }
    }
}

/// A path that exists on disk, with the path it resolves to once links and
/// relative components are followed.
#[derive(Debug)]
pub struct DiskEntry {
    pub path: String,
    pub canonical: String,
}

/// Mathematical value of a [`DiskEntry`].
pub struct DiskEntryView {
    pub path: Seq<char>,
    pub canonical: Seq<char>,
}

impl View for DiskEntry {
    type V = DiskEntryView;

    open spec fn view(&self) -> DiskEntryView {
        DiskEntryView { path: self.path@, canonical: self.canonical@ }
    }
}

/// Views of a disk listing.
pub open spec fn disk_views(v: Seq<DiskEntry>) -> Seq<DiskEntryView> {
    Seq::new(v.len(), |i: int| v[i]@)
}

/// The paths of a disk listing.
pub open spec fn disk_paths(disk: Seq<DiskEntryView>) -> Seq<Seq<char>> {
    Seq::new(disk.len(), |i: int| disk[i].path)
}

/// The canonical form of `path`, if it exists on disk.
pub open spec fn canonical_of(disk: Seq<DiskEntryView>, path: Seq<char>) -> Option<Seq<char>>
    decreases disk.len(),
{
    if disk.len() == 0 {
        None
    } else {
        match canonical_of(disk.drop_last(), path) {
            Some(c) => Some(c),
            None => if disk.last().path == path {
                Some(disk.last().canonical)
            } else {
                None
            },
        }
    }
}

/// One entry of an organize plan.
#[derive(Debug)]
pub struct OrganizeEntry {
    pub file_id: String,
    pub source_path: String,
    pub target_path: String,
    pub action: PlanAction,
}

/// Mathematical value of an [`OrganizeEntry`].
pub struct OrganizeEntryView {
    pub file_id: Seq<char>,
    pub source_path: Seq<char>,
    pub target_path: Seq<char>,
    pub action: PlanAction,
}

impl View for OrganizeEntry {
    type V = OrganizeEntryView;

    open spec fn view(&self) -> OrganizeEntryView {
        OrganizeEntryView {
            file_id: self.file_id@,
            source_path: self.source_path@,
            target_path: self.target_path@,
            action: self.action,
        }
    }
}

/// Views of the entries of a plan.
pub open spec fn plan_views(v: Seq<OrganizeEntry>) -> Seq<OrganizeEntryView> {
    Seq::new(v.len(), |i: int| v[i]@)
}

/// An organize plan: one entry per file, in the order of the input.
#[derive(Debug)]
pub struct OrganizePlan {
    pub mode: LayoutMode,
    pub library_root: String,
    pub template: String,
    pub entries: Vec<OrganizeEntry>,
}

/// `s` up to its first `c`, or all of it where `c` does not occur.
pub open spec fn before_char(s: Seq<char>, c: char) -> Seq<char>
    decreases s.len(),
{
    if s.len() == 0 || s[0] == c {
        Seq::empty()
    } else {
        seq![s[0]] + before_char(s.drop_first(), c)
    }
}

/// `s` up to its first `c`.
pub fn take_before(s: &str, c: char) -> (r: String)
    ensures
        r@ == before_char(s@, c),
{
    let v = chars_of(s);
    let mut out = String::new();
    let mut i: usize = 0;
    assert(v@.subrange(0, v.len() as int) == v@);
    assert(out@ + before_char(v@, c) =~= before_char(v@, c));
    while i < v.len() && v[i] != c
        invariant
            i <= v.len(),
            before_char(v@, c) == out@ + before_char(v@.subrange(i as int, v.len() as int), c),
        decreases v.len() - i,
    {
        let ghost rest = v@.subrange(i as int, v.len() as int);
        let ghost done = out@;
        assert(rest[0] == v@[i as int]);
        assert(rest.drop_first() == v@.subrange(i + 1, v.len() as int));
        out.push(v[i]);
        assert(done + (seq![rest[0]] + before_char(rest.drop_first(), c)) =~= done.push(rest[0])
            + before_char(rest.drop_first(), c));
        i += 1;
    }
    proof {
        let rest = v@.subrange(i as int, v.len() as int);
        if i < v.len() {
            assert(rest[0] == v@[i as int]);
        }
        assert(before_char(rest, c) =~= Seq::<char>::empty());
        assert(out@ + Seq::<char>::empty() =~= out@);
    }
    out
}

/// Whether a source stem counts as the expected stem: they are the same, or
/// the source stem is a collision variant of the expected one.
pub open spec fn stems_agree(source: Option<Seq<char>>, expected: Option<Seq<char>>) -> bool {
    source == expected || (match source {
        Some(s) => suffix_base(s),
        None => None,
    }) == expected
}

/// Whether `source` lies in the directory of `target` under a stem that
/// counts as the stem of `target`.
pub open spec fn same_directory_and_stem(source: Seq<char>, target: Seq<char>) -> bool {
    &&& parent_of(target) is Some
    &&& parent_of(source) is Some
    &&& parent_of(target) == parent_of(source)
    &&& file_stem_of(target) is Some
    &&& stems_agree(file_stem_of(source), file_stem_of(target))
}

/// Whether `source`, taken relative to the library root, lies in the
/// directory of `relative` under a stem that counts as the stem of
/// `relative`.
pub open spec fn same_under_root(source: Seq<char>, root: Seq<char>, relative: Seq<char>) -> bool {
    match stripped(source, root) {
        None => false,
        Some(rel) => parent_of(rel) == parent_of(relative) && stems_agree(
            file_stem_of(rel),
            file_stem_of(relative),
        ),
    }
}

/// The tolerant equivalence by which a file counts as already organized:
/// its path is the proposed path, or both exist and resolve to one
/// canonical path, or both share directory and stem, the stem of the source
/// possibly bearing a collision suffix.
pub open spec fn in_place(
    source: Seq<char>,
    root: Seq<char>,
    relative: Seq<char>,
    disk: Seq<DiskEntryView>,
) -> bool {
    let target = joined(root, relative);
    ||| source == target
    ||| (canonical_of(disk, source) is Some && canonical_of(disk, source) == canonical_of(
        disk,
        target,
    ))
    ||| same_directory_and_stem(source, target)
    ||| same_under_root(source, root, relative)
}

/// The path that the template gives a file, relative to the library root.
pub open spec fn relative_target(input: PlanInputView, template: Seq<char>) -> Seq<char> {
    rendered(
        template,
        before_char(
            match input.authors {
                Some(a) => a,
                None => Seq::<char>::empty(),
            },
            ',',
        ),
        match input.title {
            Some(t) => t,
            None => "Untitled"@,
        },
        input.published_year,
        input.isbn13,
        input.extension,
    )
}

/// The action of a plan entry.
pub open spec fn action_for(mode: LayoutMode, placed: bool) -> PlanAction {
    if placed || mode == LayoutMode::Reference {
        PlanAction::Skip
    } else if mode == LayoutMode::Copy {
        PlanAction::Copy
    } else {
        PlanAction::Move
    }
}

/// The plan entry for one file.
pub open spec fn planned(
    input: PlanInputView,
    mode: LayoutMode,
    root: Seq<char>,
    template: Seq<char>,
    disk: Seq<DiskEntryView>,
) -> OrganizeEntryView {
    let relative = relative_target(input, template);
    let placed = in_place(input.source_path, root, relative, disk);
    OrganizeEntryView {
        file_id: input.file_id,
        source_path: input.source_path,
        target_path: if placed {
            joined(root, relative)
        } else {
            resolved(joined(root, relative), disk_paths(disk))
        },
        action: action_for(mode, placed),
    }
}

/// The canonical form of `path`, if it exists in the listing.
pub fn canonical_path(disk: &Vec<DiskEntry>, path: &str) -> (c: Option<String>)
    ensures
        opt_view(c) == canonical_of(disk_views(disk@), path@),
{
    let ghost d = disk_views(disk@);
    let mut i: usize = 0;
    assert(d.subrange(0, 0) =~= Seq::<DiskEntryView>::empty());
    while i < disk.len()
        invariant
            i <= disk.len(),
            d == disk_views(disk@),
            canonical_of(d.subrange(0, i as int), path@) is None,
        decreases disk.len() - i,
    {
        let ghost prefix = d.subrange(0, i + 1);
        assert(prefix.drop_last() == d.subrange(0, i as int));
        assert(prefix.last() == disk@[i as int]@);
        if crate::text::same_text(disk[i].path.as_str(), path) {
            proof {
                lemma_canonical_stable(d, i + 1, path@);
            }
            return Some(disk[i].canonical.clone());
        }
        i += 1;
    }
    assert(d.subrange(0, i as int) == d);
    None
}

/// Once a prefix of the listing yields a canonical form, the whole listing
/// yields the same one.
pub proof fn lemma_canonical_stable(disk: Seq<DiskEntryView>, n: int, path: Seq<char>)
    requires
        0 <= n <= disk.len(),
        canonical_of(disk.subrange(0, n), path) is Some,
    ensures
        canonical_of(disk, path) == canonical_of(disk.subrange(0, n), path),
    decreases disk.len() - n,
{
    if n < disk.len() {
        let next = disk.subrange(0, n + 1);
        assert(next.drop_last() == disk.subrange(0, n));
        lemma_canonical_stable(disk, n + 1, path);
    } else {
        assert(disk.subrange(0, n) == disk);
    }
}

/// Whether two optional strings spell the same, both absent counting as the
/// same.
pub fn same_option(a: &Option<String>, b: &Option<String>) -> (eq: bool)
    ensures
        eq == (opt_view(*a) == opt_view(*b)),
{
    match (a, b) {
        (Some(x), Some(y)) => crate::text::same_text(x.as_str(), y.as_str()),
        (None, None) => true,
        _ => false,
    }
}

/// Whether a source stem counts as the expected stem.
pub fn stems_match(source: &Option<String>, expected: &Option<String>) -> (b: bool)
    ensures
        b == stems_agree(opt_view(*source), opt_view(*expected)),
{
    if same_option(source, expected) {
        return true;
    }
    let base = match source {
        Some(s) => collision_base(s.as_str()),
        None => None,
    };
    same_option(&base, expected)
}

/// The single predicate behind "this file is already organized": whether
/// the file at `source` counts as sitting at `library_root / relative`.
pub fn is_in_place(source: &str, library_root: &str, relative: &str, disk: &Vec<DiskEntry>) -> (b:
    bool)
    ensures
        b == in_place(source@, library_root@, relative@, disk_views(disk@)),
{
    let target = crate::paths::join(library_root, relative);
    if crate::text::same_text(source, target.as_str()) {
        return true;
    }
    let source_canon = canonical_path(disk, source);
    if source_canon.is_some() {
        let target_canon = canonical_path(disk, target.as_str());
        if same_option(&source_canon, &target_canon) {
            return true;
        }
    }
    let expected_parent = crate::paths::parent(target.as_str());
    let source_parent = crate::paths::parent(source);
    let expected_stem = crate::paths::file_stem(target.as_str());
    if expected_parent.is_some() && source_parent.is_some() && same_option(
        &expected_parent,
        &source_parent,
    ) && expected_stem.is_some() {
        let source_stem = crate::paths::file_stem(source);
        if stems_match(&source_stem, &expected_stem) {
            return true;
        }
    }
    match crate::paths::strip_prefix(source, library_root) {
        None => false,
        Some(rel) => {
            let rel_parent = crate::paths::parent(rel.as_str());
            let relative_parent = crate::paths::parent(relative);
            if !same_option(&rel_parent, &relative_parent) {
                return false;
            }
            let rel_stem = crate::paths::file_stem(rel.as_str());
            let relative_stem = crate::paths::file_stem(relative);
            stems_match(&rel_stem, &relative_stem)
        },
    }
}

/// The paths of a disk listing.
pub fn listed_paths(disk: &Vec<DiskEntry>) -> (paths: Vec<String>)
    ensures
        texts(paths@) == disk_paths(disk_views(disk@)),
{
    let mut paths: Vec<String> = Vec::new();
    let mut i: usize = 0;
    while i < disk.len()
        invariant
            i <= disk.len(),
            paths.len() == i,
            forall|k: int| 0 <= k < i ==> (#[trigger] paths@[k])@ == disk@[k].path@,
        decreases disk.len() - i,
    {
        paths.push(disk[i].path.clone());
        i += 1;
    }
    assert(texts(paths@) =~= disk_paths(disk_views(disk@)));
    paths
}

/// Plans one file.
///
/// The template is rendered with the first of the authors' names, the
/// title, or `Untitled` where there is none, the year, the identifier and
/// the extension. A file that already counts as sitting at the rendered
/// path is skipped and keeps that path as its target. Any other file gets
/// the first free path from collision resolution as its target, and the
/// action that the mode asks for; reference mode never asks for anything
/// but a skip.
pub fn plan_entry(
    input: &PlanInput,
    mode: LayoutMode,
    library_root: &str,
    template: &str,
    disk: &Vec<DiskEntry>,
) -> (entry: OrganizeEntry)
    ensures
        entry@ == planned(input@, mode, library_root@, template@, disk_views(disk@)),
{
    let author = match &input.authors {
        Some(a) => take_before(a.as_str(), ','),
        None => {
            assert(before_char(Seq::<char>::empty(), ',') =~= Seq::<char>::empty());
            String::new()
        },
    };
    let title = match &input.title {
        Some(t) => t.clone(),
        None => copy_string("Untitled"),
    };
    let isbn: Option<&str> = match &input.isbn13 {
        Some(v) => Some(v.as_str()),
        None => None,
    };
    let relative = render_template(
        template,
        author.as_str(),
        title.as_str(),
        input.published_year,
        isbn,
        input.extension.as_str(),
    );
    assert(relative@ == relative_target(input@, template@));
    let placed = is_in_place(input.source_path.as_str(), library_root, relative.as_str(), disk);
    let target = if placed {
        crate::paths::join(library_root, relative.as_str())
    } else {
        let occupied = listed_paths(disk);
        resolve_collision(library_root, relative.as_str(), &occupied)
    };
    let action = if placed {
        PlanAction::Skip
    } else {
        match mode {
            LayoutMode::Reference => PlanAction::Skip,
            LayoutMode::Copy => PlanAction::Copy,
            LayoutMode::Move => PlanAction::Move,
        }
    };
    OrganizeEntry {
        file_id: input.file_id.clone(),
        source_path: input.source_path.clone(),
        target_path: target,
        action,
    }
}

/// Plans an organize operation: one entry per file, in the order of the
/// input. Nothing is read from disk and nothing is changed; the same input
/// gives the same plan.
pub fn plan_organize(
    files: &Vec<PlanInput>,
    mode: LayoutMode,
    library_root: &str,
    template: &str,
    disk: &Vec<DiskEntry>,
) -> (plan: OrganizePlan)
    ensures
        plan.mode == mode,
        plan.library_root@ == library_root@,
        plan.template@ == template@,
        plan.entries@.len() == files@.len(),
        forall|i: int|
            0 <= i < files@.len() ==> (#[trigger] plan.entries@[i])@ == planned(
                files@[i]@,
                mode,
                library_root@,
                template@,
                disk_views(disk@),
            ),
{
    let mut entries: Vec<OrganizeEntry> = Vec::new();
    let mut i: usize = 0;
    while i < files.len()
        invariant
            i <= files.len(),
            entries.len() == i,
            forall|k: int|
                0 <= k < i ==> (#[trigger] entries@[k])@ == planned(
                    files@[k]@,
                    mode,
                    library_root@,
                    template@,
                    disk_views(disk@),
                ),
        decreases files.len() - i,
    {
        entries.push(plan_entry(&files[i], mode, library_root, template, disk));
        i += 1;
    }
    OrganizePlan {
        mode,
        library_root: copy_string(library_root),
        template: copy_string(template),
        entries,
    }
}

/// Skip-equivalence. A file whose path already is the proposed path, or
/// that counts as sitting there by the tolerant equivalence, is planned as
/// a skip with the proposed path as its target, whatever the mode; and in
/// reference mode every file is planned as a skip.
pub proof fn law_in_place_is_skipped(
    input: PlanInputView,
    mode: LayoutMode,
    root: Seq<char>,
    template: Seq<char>,
    disk: Seq<DiskEntryView>,
)
    ensures
        ({
            let relative = relative_target(input, template);
            let entry = planned(input, mode, root, template, disk);
            &&& input.source_path == joined(root, relative) ==> entry.action == PlanAction::Skip
            &&& in_place(input.source_path, root, relative, disk) ==> entry.action
                == PlanAction::Skip && entry.target_path == joined(root, relative)
            &&& mode == LayoutMode::Reference ==> entry.action == PlanAction::Skip
            &&& entry.action == PlanAction::Skip ==> mode == LayoutMode::Reference || in_place(
                input.source_path,
                root,
                relative,
                disk,
            )
        }),
{
}

/// Skip-equivalence, for a prior collision suffix. A file that lies in the
/// directory of the proposed path, under the proposed stem followed by a
/// space and a bracketed number, counts as sitting at the proposed path.
pub proof fn law_collision_variant_is_in_place(
    source: Seq<char>,
    root: Seq<char>,
    relative: Seq<char>,
    disk: Seq<DiskEntryView>,
    index: nat,
)
    requires
        parent_of(source) is Some,
        parent_of(source) == parent_of(joined(root, relative)),
        file_stem_of(joined(root, relative)) is Some,
        file_stem_of(source) == Some(
            collision_name(file_stem_of(joined(root, relative))->0, index, Seq::<char>::empty()),
        ),
    ensures
        in_place(source, root, relative, disk),
{
    law_collision_suffix_round_trip(file_stem_of(joined(root, relative))->0, index);
}

/// Collision-safe planning. The target of a plan entry that is not a skip
/// does not exist on disk: it is the proposed path where that is free, and
/// otherwise the proposed path with the smallest bracketed index, from 1
/// on, that makes it free.
pub proof fn law_planned_target_is_free(
    input: PlanInputView,
    mode: LayoutMode,
    root: Seq<char>,
    template: Seq<char>,
    disk: Seq<DiskEntryView>,
)
    requires
        planned(input, mode, root, template, disk).action != PlanAction::Skip,
    ensures
        ({
            let proposed = joined(root, relative_target(input, template));
            let target = planned(input, mode, root, template, disk).target_path;
            let index = first_free(proposed, disk_paths(disk));
            &&& !disk_paths(disk).contains(target)
            &&& target == candidate(proposed, index)
            &&& forall|j: nat|
                j < index ==> disk_paths(disk).contains(#[trigger] candidate(proposed, j))
            &&& !disk_paths(disk).contains(proposed) ==> target == proposed
            &&& disk_paths(disk).contains(proposed) ==> index >= 1
        }),
{
    law_resolution_is_free(
        joined(root, relative_target(input, template)),
        disk_paths(disk),
    );
}

} // verus!
