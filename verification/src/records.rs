//! The file record store: one record per physical file ever seen, one item
//! per logical catalog entry, and the issues raised against them.
//!
//! Contracts speak of the store through its view, in which every string is a
//! sequence of characters and every table is a sequence of rows in insertion
//! order.

use vstd::prelude::*;

verus! {

/// Lifecycle state of a file record.
#[derive(Clone, Copy, Debug, PartialEq, Eq, Structural)]
pub enum FileStatus {
    /// Present on disk and tracked.
    Active,
    /// Tracked, but not found where it was last seen.
    Missing,
    /// Permanently retired.
    Inactive,
}

/// Tag of the algorithm that produced a content fingerprint.
#[derive(Clone, Copy, Debug, PartialEq, Eq, Structural)]
pub enum HashAlgo {
    Sha256,
}

/// One physical file known to the catalog.
#[derive(Debug)]
pub struct FileRecord {
    pub id: String,
    pub item_id: String,
    pub path: String,
    pub filename: String,
    pub extension: String,
    pub size_bytes: Option<i64>,
    pub modified_at: Option<i64>,
    pub fingerprint: Option<String>,
    pub hash_algo: Option<HashAlgo>,
    pub status: FileStatus,
    pub created_at: i64,
    pub updated_at: i64,
}

/// Mathematical value of a [`FileRecord`].
pub struct FileRecordView {
    pub id: Seq<char>,
    pub item_id: Seq<char>,
    pub path: Seq<char>,
    pub filename: Seq<char>,
    pub extension: Seq<char>,
    pub size_bytes: Option<i64>,
    pub modified_at: Option<i64>,
    pub fingerprint: Option<Seq<char>>,
    pub hash_algo: Option<HashAlgo>,
    pub status: FileStatus,
    pub created_at: i64,
    pub updated_at: i64,
}

/// View of an optional string.
pub open spec fn opt_view(s: Option<String>) -> Option<Seq<char>> {
    match s {
        Some(t) => Some(t@),
        None => None,
    }
}

/// Copies an optional string.
pub fn copy_opt(s: &Option<String>) -> (r: Option<String>)
    ensures
        opt_view(r) == opt_view(*s),
{
    match s {
        Some(t) => Some(t.clone()),
        None => None,
    }
}

impl View for FileRecord {
    type V = FileRecordView;

    open spec fn view(&self) -> FileRecordView {
        FileRecordView {
            id: self.id@,
            item_id: self.item_id@,
            path: self.path@,
            filename: self.filename@,
            extension: self.extension@,
            size_bytes: self.size_bytes,
            modified_at: self.modified_at,
            fingerprint: opt_view(self.fingerprint),
            hash_algo: self.hash_algo,
            status: self.status,
            created_at: self.created_at,
            updated_at: self.updated_at,
        }
    }
}

impl FileRecord {
    /// Whether lookups may return this record.
    pub fn is_live(&self) -> (b: bool)
        ensures
            b == live(self@),
    {
        match self.status {
            FileStatus::Inactive => false,
            _ => true,
        }
    }

    /// Whether the record is currently active.
    pub fn is_active(&self) -> (b: bool)
        ensures
            b == (self@.status == FileStatus::Active),
    {
        match self.status {
            FileStatus::Active => true,
            _ => false,
        }
    }

    /// Whether a lookup by `fingerprint` may return this record.
    pub fn carries_fingerprint(&self, fingerprint: &str) -> (b: bool)
        ensures
            b == carries(self@, fingerprint@),
    {
        let tagged = self.hash_algo.is_some();
        let same = match &self.fingerprint {
            Some(own) => crate::text::same_text(own.as_str(), fingerprint),
            None => false,
        };
        self.is_live() && tagged && same
    }

    /// An independent copy with the same value.
    pub fn duplicate(&self) -> (r: FileRecord)
        ensures
            r@ == self@,
    {
        FileRecord {
            id: self.id.clone(),
            item_id: self.item_id.clone(),
            path: self.path.clone(),
            filename: self.filename.clone(),
            extension: self.extension.clone(),
            size_bytes: self.size_bytes,
            modified_at: self.modified_at,
            fingerprint: copy_opt(&self.fingerprint),
            hash_algo: self.hash_algo,
            status: self.status,
            created_at: self.created_at,
            updated_at: self.updated_at,
        }
    }
}

/// What kind of number an identifier of an item is.
#[derive(Clone, Copy, Debug, PartialEq, Eq, Structural)]
pub enum IdentifierKind {
    Isbn10,
    Isbn13,
    Other,
}

/// An identifier of an item, such as a book number.
#[derive(Debug)]
pub struct Identifier {
    pub kind: IdentifierKind,
    pub value: String,
}

/// Mathematical value of an [`Identifier`].
pub struct IdentifierView {
    pub kind: IdentifierKind,
    pub value: Seq<char>,
}

impl View for Identifier {
    type V = IdentifierView;

    open spec fn view(&self) -> IdentifierView {
        IdentifierView { kind: self.kind, value: self.value@ }
    }
}

/// Views of a list of identifiers.
pub open spec fn identifier_views(v: Seq<Identifier>) -> Seq<IdentifierView> {
    Seq::new(v.len(), |i: int| v[i]@)
}

/// One logical catalog entry. The pipeline only joins on its identifier and
/// fills in fields that are still empty.
#[derive(Debug)]
pub struct Item {
    pub id: String,
    pub title: Option<String>,
    pub language: Option<String>,
    pub published_year: Option<i64>,
    pub description: Option<String>,
    pub series: Option<String>,
    pub authors: Vec<String>,
    pub identifiers: Vec<Identifier>,
    pub created_at: i64,
    pub updated_at: i64,
}

/// Mathematical value of an [`Item`].
pub struct ItemView {
    pub id: Seq<char>,
    pub title: Option<Seq<char>>,
    pub language: Option<Seq<char>>,
    pub published_year: Option<i64>,
    pub description: Option<Seq<char>>,
    pub series: Option<Seq<char>>,
    pub authors: Seq<Seq<char>>,
    pub identifiers: Seq<IdentifierView>,
    pub created_at: i64,
    pub updated_at: i64,
}

/// View of a list of strings.
pub open spec fn texts(v: Seq<String>) -> Seq<Seq<char>> {
    Seq::new(v.len(), |i: int| v[i]@)
}

impl View for Item {
    type V = ItemView;

    open spec fn view(&self) -> ItemView {
        ItemView {
            id: self.id@,
            title: opt_view(self.title),
            language: opt_view(self.language),
            published_year: self.published_year,
            description: opt_view(self.description),
            series: opt_view(self.series),
            authors: texts(self.authors@),
            identifiers: identifier_views(self.identifiers@),
            created_at: self.created_at,
            updated_at: self.updated_at,
        }
    }
}

/// What an issue is about.
#[derive(Clone, Copy, Debug, PartialEq, Eq, Structural)]
pub enum IssueKind {
    /// Byte-identical content exists at a second path.
    Duplicate,
    /// Title or author could not be established.
    MissingMetadata,
}

/// A problem raised against an item, and possibly one of its files.
#[derive(Debug)]
pub struct Issue {
    pub item_id: String,
    pub file_id: Option<String>,
    pub kind: IssueKind,
    pub message: String,
    pub created_at: i64,
    pub resolved_at: Option<i64>,
}

/// Mathematical value of an [`Issue`].
pub struct IssueView {
    pub item_id: Seq<char>,
    pub file_id: Option<Seq<char>>,
    pub kind: IssueKind,
    pub message: Seq<char>,
    pub created_at: i64,
    pub resolved_at: Option<i64>,
}

impl View for Issue {
    type V = IssueView;

    open spec fn view(&self) -> IssueView {
        IssueView {
            item_id: self.item_id@,
            file_id: opt_view(self.file_id),
            kind: self.kind,
            message: self.message@,
            created_at: self.created_at,
            resolved_at: self.resolved_at,
        }
    }
}

/// Views of the rows of a file table.
pub open spec fn file_views(v: Seq<FileRecord>) -> Seq<FileRecordView> {
    Seq::new(v.len(), |i: int| v[i]@)
}

/// Views of the rows of an item table.
pub open spec fn item_views(v: Seq<Item>) -> Seq<ItemView> {
    Seq::new(v.len(), |i: int| v[i]@)
}

/// Views of the rows of an issue table.
pub open spec fn issue_views(v: Seq<Issue>) -> Seq<IssueView> {
    Seq::new(v.len(), |i: int| v[i]@)
}

/// A record that lookups may return: anything not retired.
pub open spec fn live(r: FileRecordView) -> bool {
    r.status != FileStatus::Inactive
}

/// Index of the first live record at `path`, if any.
pub open spec fn live_at(files: Seq<FileRecordView>, path: Seq<char>) -> Option<int>
    decreases files.len(),
{
    if files.len() == 0 {
        None
    } else {
        match live_at(files.drop_last(), path) {
            Some(i) => Some(i),
            None => if files.last().path == path && live(files.last()) {
                Some(files.len() - 1)
            } else {
                None
            },
        }
    }
}

/// Index of the first record with identifier `id`, if any.
pub open spec fn with_id(files: Seq<FileRecordView>, id: Seq<char>) -> Option<int>
    decreases files.len(),
{
    if files.len() == 0 {
        None
    } else {
        match with_id(files.drop_last(), id) {
            Some(i) => Some(i),
            None => if files.last().id == id {
                Some(files.len() - 1)
            } else {
                None
            },
        }
    }
}

/// Whether a record can answer a lookup by content fingerprint.
pub open spec fn carries(r: FileRecordView, fingerprint: Seq<char>) -> bool {
    live(r) && r.fingerprint == Some(fingerprint) && r.hash_algo is Some
}

/// Whether `a` is strictly preferred over `b` by a fingerprint lookup:
/// active before missing, then the more recently updated.
pub open spec fn preferred(a: FileRecordView, b: FileRecordView) -> bool {
    ||| (a.status == FileStatus::Active && b.status != FileStatus::Active)
    ||| ((a.status == FileStatus::Active) == (b.status == FileStatus::Active) && a.updated_at
        > b.updated_at)
}

/// Index of the record that a fingerprint lookup returns: the most preferred
/// one carrying the fingerprint, the earliest such where several tie.
pub open spec fn best_match(files: Seq<FileRecordView>, fingerprint: Seq<char>) -> Option<int>
    decreases files.len(),
{
    if files.len() == 0 {
        None
    } else {
        let last = files.len() - 1;
        match best_match(files.drop_last(), fingerprint) {
            None => if carries(files[last], fingerprint) {
                Some(last)
            } else {
                None
            },
            Some(i) => if carries(files[last], fingerprint) && preferred(files[last], files[i]) {
                Some(last)
            } else {
                Some(i)
            },
        }
    }
}

/// No two records share an identifier.
pub open spec fn ids_distinct(files: Seq<FileRecordView>) -> bool {
    forall|i: int, j: int| 0 <= i < j < files.len() ==> files[i].id != files[j].id
}

/// At most one live record per path.
pub open spec fn paths_distinct(files: Seq<FileRecordView>) -> bool {
    forall|i: int, j: int|
        0 <= i < j < files.len() && live(files[i]) && live(files[j]) ==> files[i].path
            != files[j].path
}

/// `live_at` returns the first live record at the path, or nothing when
/// there is none.
pub proof fn lemma_live_at(files: Seq<FileRecordView>, path: Seq<char>)
    ensures
        match live_at(files, path) {
            Some(i) => 0 <= i < files.len() && files[i].path == path && live(files[i]) && forall|
                j: int,
            |
                0 <= j < i ==> !(files[j].path == path && live(files[j])),
            None => forall|j: int|
                0 <= j < files.len() ==> !(files[j].path == path && live(files[j])),
        },
    decreases files.len(),
{
    if files.len() > 0 {
        let front = files.drop_last();
        lemma_live_at(front, path);
        assert(forall|j: int| 0 <= j < front.len() ==> front[j] == files[j]);
    }
}

/// `with_id` returns the first record with the identifier, or nothing when
/// there is none.
pub proof fn lemma_with_id(files: Seq<FileRecordView>, id: Seq<char>)
    ensures
        match with_id(files, id) {
            Some(i) => 0 <= i < files.len() && files[i].id == id && forall|j: int|
                0 <= j < i ==> files[j].id != id,
            None => forall|j: int| 0 <= j < files.len() ==> files[j].id != id,
        },
    decreases files.len(),
{
    if files.len() > 0 {
        let front = files.drop_last();
        lemma_with_id(front, id);
        assert(forall|j: int| 0 <= j < front.len() ==> front[j] == files[j]);
    }
}

/// `best_match` returns a record that carries the fingerprint and over which
/// no other such record is preferred; among equally preferred ones, the
/// earliest. It returns nothing exactly when no record carries it.
pub proof fn lemma_best_match(files: Seq<FileRecordView>, fingerprint: Seq<char>)
    ensures
        match best_match(files, fingerprint) {
            Some(i) => {
                &&& 0 <= i < files.len()
                &&& carries(files[i], fingerprint)
                &&& forall|j: int|
                    0 <= j < files.len() && carries(files[j], fingerprint) ==> !preferred(
                        files[j],
                        files[i],
                    )
                &&& forall|j: int|
                    0 <= j < i && carries(files[j], fingerprint) ==> preferred(
                        files[i],
                        files[j],
                    )
            },
            None => forall|j: int| 0 <= j < files.len() ==> !carries(files[j], fingerprint),
        },
    decreases files.len(),
{
    if files.len() > 0 {
        let front = files.drop_last();
        lemma_best_match(front, fingerprint);
        assert(forall|j: int| 0 <= j < front.len() ==> front[j] == files[j]);
    }
}

/// The record store.
#[derive(Debug)]
pub struct Library {
    pub files: Vec<FileRecord>,
    pub items: Vec<Item>,
    pub issues: Vec<Issue>,
}

/// Mathematical value of a [`Library`].
pub struct LibraryView {
    pub files: Seq<FileRecordView>,
    pub items: Seq<ItemView>,
    pub issues: Seq<IssueView>,
}

impl View for Library {
    type V = LibraryView;

    open spec fn view(&self) -> LibraryView {
        LibraryView {
            files: file_views(self.files@),
            items: item_views(self.items@),
            issues: issue_views(self.issues@),
        }
    }
}

impl Library {
    /// An empty store.
    pub fn new() -> (lib: Library)
        ensures
            lib@.files.len() == 0,
            lib@.items.len() == 0,
            lib@.issues.len() == 0,
    {
        Library { files: Vec::new(), items: Vec::new(), issues: Vec::new() }
    }

    /// Position of the first live record at `path`.
    pub fn find_live_at(&self, path: &str) -> (found: Option<usize>)
        ensures
            match found {
                Some(i) => live_at(self@.files, path@) == Some(i as int),
                None => live_at(self@.files, path@) is None,
            },
    {
        let mut i: usize = 0;
        while i < self.files.len()
            invariant
                i <= self.files.len(),
                live_at(self@.files.subrange(0, i as int), path@) is None,
            decreases self.files.len() - i,
        {
            let rec = &self.files[i];
            let ghost prefix = self@.files.subrange(0, i + 1);
            assert(prefix.drop_last() == self@.files.subrange(0, i as int));
            assert(prefix.last() == self.files@[i as int]@);
            if rec.is_live() && crate::text::same_text(rec.path.as_str(), path) {
                proof {
                    lemma_live_at_stable(self@.files, i + 1, path@);
                }
                return Some(i);
            }
            i += 1;
        }
        assert(self@.files.subrange(0, i as int) == self@.files);
        None
    }

    /// Position of the first record with identifier `id`.
    pub fn find_id(&self, id: &str) -> (found: Option<usize>)
        ensures
            match found {
                Some(i) => with_id(self@.files, id@) == Some(i as int),
                None => with_id(self@.files, id@) is None,
            },
    {
        let mut i: usize = 0;
        while i < self.files.len()
            invariant
                i <= self.files.len(),
                with_id(self@.files.subrange(0, i as int), id@) is None,
            decreases self.files.len() - i,
        {
            let rec = &self.files[i];
            let ghost prefix = self@.files.subrange(0, i + 1);
            assert(prefix.drop_last() == self@.files.subrange(0, i as int));
            assert(prefix.last() == self.files@[i as int]@);
            if crate::text::same_text(rec.id.as_str(), id) {
                proof {
                    lemma_with_id_stable(self@.files, i + 1, id@);
                }
                return Some(i);
            }
            i += 1;
        }
        assert(self@.files.subrange(0, i as int) == self@.files);
        None
    }

    /// Position of the record that a lookup by content fingerprint returns.
    pub fn find_fingerprint(&self, fingerprint: &str) -> (found: Option<usize>)
        ensures
            match found {
                Some(i) => best_match(self@.files, fingerprint@) == Some(i as int),
                None => best_match(self@.files, fingerprint@) is None,
            },
    {
        let mut best: Option<usize> = None;
        let mut i: usize = 0;
        while i < self.files.len()
            invariant
                i <= self.files.len(),
                match best {
                    Some(b) => b < i && best_match(
                        self@.files.subrange(0, i as int),
                        fingerprint@,
                    ) == Some(b as int),
                    None => best_match(self@.files.subrange(0, i as int), fingerprint@) is None,
                },
            decreases self.files.len() - i,
        {
            let rec = &self.files[i];
            let ghost prefix = self@.files.subrange(0, i + 1);
            assert(prefix.drop_last() == self@.files.subrange(0, i as int));
            assert(prefix.last() == self.files@[i as int]@);
            assert(prefix[i as int] == self.files@[i as int]@);
            if rec.carries_fingerprint(fingerprint) {
                match best {
                    None => {
                        best = Some(i);
                    },
                    Some(b) => {
                        let cur = &self.files[b];
                        assert(prefix[b as int] == self.files@[b as int]@);
                        assert(prefix[i as int] == self.files@[i as int]@);
                        let rec_active = rec.is_active();
                        let cur_active = cur.is_active();
                        if (rec_active && !cur_active) || (rec_active == cur_active
                            && rec.updated_at > cur.updated_at) {
                            best = Some(i);
                        }
                    },
                }
            }
            i += 1;
        }
        assert(self@.files.subrange(0, i as int) == self@.files);
        best
    }
}

/// Once a prefix yields a live record at a path, the whole table yields the
/// same one.
pub proof fn lemma_live_at_stable(files: Seq<FileRecordView>, n: int, path: Seq<char>)
    requires
        0 <= n <= files.len(),
        live_at(files.subrange(0, n), path) is Some,
    ensures
        live_at(files, path) == live_at(files.subrange(0, n), path),
    decreases files.len() - n,
{
    if n < files.len() {
        let next = files.subrange(0, n + 1);
        assert(next.drop_last() == files.subrange(0, n));
        lemma_live_at_stable(files, n + 1, path);
    } else {
        assert(files.subrange(0, n) == files);
    }
}

/// Once a prefix yields a record with an identifier, the whole table yields
/// the same one.
pub proof fn lemma_with_id_stable(files: Seq<FileRecordView>, n: int, id: Seq<char>)
    requires
        0 <= n <= files.len(),
        with_id(files.subrange(0, n), id) is Some,
    ensures
        with_id(files, id) == with_id(files.subrange(0, n), id),
    decreases files.len() - n,
{
    if n < files.len() {
        let next = files.subrange(0, n + 1);
        assert(next.drop_last() == files.subrange(0, n));
        lemma_with_id_stable(files, n + 1, id);
    } else {
        assert(files.subrange(0, n) == files);
    }
}

} // verus!
