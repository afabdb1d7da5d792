//! The directory scanner's decisions.
//!
//! A scan pass is driven from outside: whoever walks the directory hands each
//! file's path, size and modification time to [`ScanRun::probe`], which either
//! recognises the file as unchanged or asks for its content fingerprint. With
//! the fingerprint, and with the answer to "does the path of the record that
//! shares this fingerprint still exist", [`ScanRun::settle`] classifies the
//! file and updates the record store. [`ScanRun::finish`] marks every active
//! record under the root that the walk did not reach as missing.

use vstd::prelude::*;
use crate::records::{
    best_match, file_views, issue_views, item_views, live_at, opt_view, with_id, FileRecord,
    FileRecordView, FileStatus, HashAlgo, Issue, IssueKind, IssueView, Item, ItemView, Library,
    LibraryView,
};
use crate::paths::{extension_of, file_name_of, file_stem_of};
use crate::text::{copy_string, lowercase};

verus! {

/// State of a scan session.
#[derive(Clone, Copy, Debug, PartialEq, Eq, Structural)]
pub enum SessionStatus {
    Running,
    Success,
    Failed,
}

/// How a scan touched a file.
#[derive(Clone, Copy, Debug, PartialEq, Eq, Structural)]
pub enum ScanAction {
    Added,
    Updated,
    Moved,
    Unchanged,
    Missing,
}

/// How the slow path classified a file whose metadata did not match.
#[derive(Clone, Copy, Debug, PartialEq, Eq, Structural)]
pub enum Verdict {
    /// Same content as a record whose own path still exists.
    Duplicate,
    /// Same content as a record whose own path is gone.
    Moved,
    /// New content at a known path.
    Updated,
    /// New content at a new path.
    Added,
}

/// Answer of the fast path.
#[derive(Clone, Copy, Debug, PartialEq, Eq, Structural)]
pub enum Probe {
    /// Size and modification time match the record at this path.
    Unchanged,
    /// The content fingerprint is needed to classify the file.
    NeedsFingerprint,
}

/// Why a pass could not start, or why a file could not be settled.
#[derive(Clone, Copy, Debug, PartialEq, Eq, Structural)]
pub enum ScanError {
    /// The root to scan does not exist: the pass does not even start.
    RootMissing,
    /// The identifier offered for a new file record is already taken.
    FileIdTaken,
    /// The identifier offered for a new item is already taken.
    ItemIdTaken,
}

/// Whether the embedded metadata of a file with this verdict is read again
/// and merged into its item: that of a file that was added, and of one
/// whose content changed in place.
pub fn refreshes_metadata(v: Verdict) -> (b: bool)
    ensures
        b == (v == Verdict::Updated || v == Verdict::Added),
{
    match v {
        Verdict::Updated | Verdict::Added => true,
        Verdict::Duplicate | Verdict::Moved => false,
    }
}

/// One row per scan invocation.
#[derive(Debug)]
pub struct ScanSession {
    pub id: String,
    pub root_path: String,
    pub started_at: i64,
    pub ended_at: Option<i64>,
    pub status: SessionStatus,
}

/// Audit row for one file touched within a session.
#[derive(Debug)]
pub struct ScanEntry {
    pub session_id: String,
    pub path: String,
    pub size_bytes: Option<i64>,
    pub modified_at: Option<i64>,
    pub fingerprint: Option<String>,
    pub action: ScanAction,
    pub file_id: String,
}

/// Mathematical value of a [`ScanEntry`].
pub struct ScanEntryView {
    pub session_id: Seq<char>,
    pub path: Seq<char>,
    pub size_bytes: Option<i64>,
    pub modified_at: Option<i64>,
    pub fingerprint: Option<Seq<char>>,
    pub action: ScanAction,
    pub file_id: Seq<char>,
}

impl View for ScanEntry {
    type V = ScanEntryView;

    open spec fn view(&self) -> ScanEntryView {
        ScanEntryView {
            session_id: self.session_id@,
            path: self.path@,
            size_bytes: self.size_bytes,
            modified_at: self.modified_at,
            fingerprint: opt_view(self.fingerprint),
            action: self.action,
            file_id: self.file_id@,
        }
    }
}

/// Counters of a scan pass.
#[derive(Clone, Copy, Debug, PartialEq, Eq, Structural)]
pub struct ScanStats {
    pub added: u64,
    pub updated: u64,
    pub moved: u64,
    pub unchanged: u64,
    pub missing: u64,
}

impl ScanStats {
    /// Number of files counted so far.
    pub open spec fn total(self) -> int {
        self.added + self.updated + self.moved + self.unchanged + self.missing
    }

    /// The counters after one more file with the given action.
    pub open spec fn bumped(self, action: ScanAction) -> ScanStats {
        match action {
            ScanAction::Added => ScanStats { added: (self.added + 1) as u64, ..self },
            ScanAction::Updated => ScanStats { updated: (self.updated + 1) as u64, ..self },
            ScanAction::Moved => ScanStats { moved: (self.moved + 1) as u64, ..self },
            ScanAction::Unchanged => ScanStats { unchanged: (self.unchanged + 1) as u64, ..self },
            ScanAction::Missing => ScanStats { missing: (self.missing + 1) as u64, ..self },
        }
    }
}

/// What the walk reports about one file.
#[derive(Debug)]
pub struct Observed {
    pub path: String,
    pub size_bytes: i64,
    pub modified_at: Option<i64>,
}

/// Mathematical value of an [`Observed`].
pub struct ObservedView {
    pub path: Seq<char>,
    pub size_bytes: i64,
    pub modified_at: Option<i64>,
}

impl View for Observed {
    type V = ObservedView;

    open spec fn view(&self) -> ObservedView {
        ObservedView {
            path: self.path@,
            size_bytes: self.size_bytes,
            modified_at: self.modified_at,
        }
    }
}

/// Identifiers offered for the rows that settling a file may create.
#[derive(Debug)]
pub struct FreshIds {
    pub file: String,
    pub item: String,
}

/// Views of the rows of an audit log.
pub open spec fn entry_views(v: Seq<ScanEntry>) -> Seq<ScanEntryView> {
    Seq::new(v.len(), |i: int| v[i]@)
}

/// The file name recorded for a path.
pub open spec fn recorded_name(path: Seq<char>) -> Seq<char> {
    match file_name_of(path) {
        Some(n) => n,
        None => "file"@,
    }
}

/// The extension recorded for a path: lower case, with its dot.
pub open spec fn dotted_extension(path: Seq<char>) -> Seq<char> {
    lowercase(
        seq!['.'] + match extension_of(path) {
            Some(e) => e,
            None => Seq::<char>::empty(),
        },
    )
}

/// `s` with every underscore turned into a space.
pub open spec fn spaced(s: Seq<char>) -> Seq<char> {
    Seq::new(
        s.len(),
        |i: int|
            if s[i] == '_' {
                ' '
            } else {
                s[i]
            },
    )
}

/// The title a new item starts with: the file stem, underscores as spaces.
pub open spec fn seeded_title(path: Seq<char>) -> Option<Seq<char>> {
    match file_stem_of(path) {
        Some(s) => Some(spaced(s)),
        None => None,
    }
}

/// Index of the record that makes the file at `obs` unchanged: the live
/// record at its path, provided size and modification time agree.
pub open spec fn fast_match(files: Seq<FileRecordView>, obs: ObservedView) -> Option<int> {
    match live_at(files, obs.path) {
        Some(i) => if files[i].modified_at == obs.modified_at && files[i].size_bytes == Some(
            obs.size_bytes,
        ) {
            Some(i)
        } else {
            None
        },
        None => None,
    }
}

/// The classification of a file that the fast path did not recognise.
pub open spec fn verdict_of(
    files: Seq<FileRecordView>,
    obs: ObservedView,
    fingerprint: Seq<char>,
    old_exists: bool,
) -> Verdict {
    match best_match(files, fingerprint) {
        Some(_) => if old_exists {
            Verdict::Duplicate
        } else {
            Verdict::Moved
        },
        None => match live_at(files, obs.path) {
            Some(_) => Verdict::Updated,
            None => Verdict::Added,
        },
    }
}

/// The log action that stands for a verdict. A duplicate is logged as added.
pub open spec fn action_of(v: Verdict) -> ScanAction {
    match v {
        Verdict::Duplicate => ScanAction::Added,
        Verdict::Moved => ScanAction::Moved,
        Verdict::Updated => ScanAction::Updated,
        Verdict::Added => ScanAction::Added,
    }
}

/// A record brought back to `active` from `missing`; others are left alone.
pub open spec fn reactivated(r: FileRecordView, now: i64) -> FileRecordView {
    if r.status == FileStatus::Missing {
        FileRecordView { status: FileStatus::Active, updated_at: now, ..r }
    } else {
        r
    }
}

/// A record moved to the observed path.
pub open spec fn relocated(r: FileRecordView, obs: ObservedView, now: i64) -> FileRecordView {
    FileRecordView {
        path: obs.path,
        filename: recorded_name(obs.path),
        extension: dotted_extension(obs.path),
        size_bytes: Some(obs.size_bytes),
        modified_at: obs.modified_at,
        updated_at: now,
        status: FileStatus::Active,
        ..r
    }
}

/// A record refreshed with the new content found at its own path.
pub open spec fn refreshed(
    r: FileRecordView,
    obs: ObservedView,
    fingerprint: Seq<char>,
    now: i64,
) -> FileRecordView {
    FileRecordView {
        filename: recorded_name(obs.path),
        extension: dotted_extension(obs.path),
        size_bytes: Some(obs.size_bytes),
        modified_at: obs.modified_at,
        fingerprint: Some(fingerprint),
        hash_algo: Some(HashAlgo::Sha256),
        updated_at: now,
        status: FileStatus::Active,
        ..r
    }
}

/// The record created for a file seen for the first time at its path.
pub open spec fn created(
    id: Seq<char>,
    item_id: Seq<char>,
    obs: ObservedView,
    fingerprint: Seq<char>,
    now: i64,
) -> FileRecordView {
    FileRecordView {
        id,
        item_id,
        path: obs.path,
        filename: recorded_name(obs.path),
        extension: dotted_extension(obs.path),
        size_bytes: Some(obs.size_bytes),
        modified_at: obs.modified_at,
        fingerprint: Some(fingerprint),
        hash_algo: Some(HashAlgo::Sha256),
        status: FileStatus::Active,
        created_at: now,
        updated_at: now,
    }
}

/// The item created together with the first record of a new file.
pub open spec fn seeded_item(id: Seq<char>, path: Seq<char>, now: i64) -> ItemView {
    ItemView {
        id,
        title: seeded_title(path),
        language: None,
        published_year: None,
        description: None,
        series: None,
        authors: Seq::empty(),
        identifiers: Seq::empty(),
        created_at: now,
        updated_at: now,
    }
}

/// The issue raised when a second copy of known content turns up. It points
/// at the record that already held the content.
pub open spec fn duplicate_issue(original: FileRecordView, now: i64) -> IssueView {
    IssueView {
        item_id: original.item_id,
        file_id: Some(original.id),
        kind: IssueKind::Duplicate,
        message: "Duplicate content detected by hash."@,
        created_at: now,
        resolved_at: None,
    }
}

/// Index of the first item with identifier `id`, if any.
pub open spec fn item_with_id(items: Seq<ItemView>, id: Seq<char>) -> Option<int>
    decreases items.len(),
{
    if items.len() == 0 {
        None
    } else {
        match item_with_id(items.drop_last(), id) {
            Some(i) => Some(i),
            None => if items.last().id == id {
                Some(items.len() - 1)
            } else {
                None
            },
        }
    }
}

/// Why settling a file fails, if it does: a row would be created under an
/// identifier that is already taken.
pub open spec fn settle_error(
    lib: LibraryView,
    obs: ObservedView,
    fingerprint: Seq<char>,
    old_exists: bool,
    file_id: Seq<char>,
    item_id: Seq<char>,
) -> Option<ScanError> {
    match verdict_of(lib.files, obs, fingerprint, old_exists) {
        Verdict::Duplicate => if with_id(lib.files, file_id) is Some {
            Some(ScanError::FileIdTaken)
        } else {
            None
        },
        Verdict::Added => if item_with_id(lib.items, item_id) is Some {
            Some(ScanError::ItemIdTaken)
        } else if with_id(lib.files, file_id) is Some {
            Some(ScanError::FileIdTaken)
        } else {
            None
        },
        _ => None,
    }
}

/// The record store after a file has been settled.
pub open spec fn settled(
    lib: LibraryView,
    obs: ObservedView,
    fingerprint: Seq<char>,
    old_exists: bool,
    file_id: Seq<char>,
    item_id: Seq<char>,
    now: i64,
) -> LibraryView {
    match best_match(lib.files, fingerprint) {
        Some(i) => if old_exists {
            LibraryView {
                files: lib.files.push(
                    created(file_id, lib.files[i].item_id, obs, fingerprint, now),
                ),
                issues: lib.issues.push(duplicate_issue(lib.files[i], now)),
                ..lib
            }
        } else {
            LibraryView { files: lib.files.update(i, relocated(lib.files[i], obs, now)), ..lib }
        },
        None => match live_at(lib.files, obs.path) {
            Some(j) => LibraryView {
                files: lib.files.update(j, refreshed(lib.files[j], obs, fingerprint, now)),
                ..lib
            },
            None => LibraryView {
                files: lib.files.push(created(file_id, item_id, obs, fingerprint, now)),
                items: lib.items.push(seeded_item(item_id, obs.path, now)),
                ..lib
            },
        },
    }
}

/// Identifier of the record that a settled file ends up with.
pub open spec fn settled_file_id(
    files: Seq<FileRecordView>,
    obs: ObservedView,
    fingerprint: Seq<char>,
    old_exists: bool,
    file_id: Seq<char>,
) -> Seq<char> {
    match best_match(files, fingerprint) {
        Some(i) => if old_exists {
            file_id
        } else {
            files[i].id
        },
        None => match live_at(files, obs.path) {
            Some(j) => files[j].id,
            None => file_id,
        },
    }
}

/// The audit row for a visited file.
pub open spec fn visit_entry(
    session_id: Seq<char>,
    obs: ObservedView,
    fingerprint: Option<Seq<char>>,
    action: ScanAction,
    file_id: Seq<char>,
) -> ScanEntryView {
    ScanEntryView {
        session_id,
        path: obs.path,
        size_bytes: Some(obs.size_bytes),
        modified_at: obs.modified_at,
        fingerprint,
        action,
        file_id,
    }
}

/// The audit row for a record that the walk did not reach.
pub open spec fn missing_entry(session_id: Seq<char>, r: FileRecordView) -> ScanEntryView {
    ScanEntryView {
        session_id,
        path: r.path,
        size_bytes: None,
        modified_at: None,
        fingerprint: None,
        action: ScanAction::Missing,
        file_id: r.id,
    }
}

/// Whether the closing step marks a record missing: it is active, lies under
/// the root as a directory, and was not visited. A record in a sibling
/// directory whose name merely begins like the root's is left alone.
pub open spec fn goes_missing(r: FileRecordView, root: Seq<char>, seen: Seq<Seq<char>>) -> bool {
    r.status == FileStatus::Active && crate::paths::lies_under(r.path, root) && !seen.contains(
        r.path,
    )
}

/// A record after the closing step.
pub open spec fn closed_record(
    r: FileRecordView,
    root: Seq<char>,
    seen: Seq<Seq<char>>,
    now: i64,
) -> FileRecordView {
    if goes_missing(r, root, seen) {
        FileRecordView { status: FileStatus::Missing, updated_at: now, ..r }
    } else {
        r
    }
}

/// The file table after the closing step.
pub open spec fn closed_files(
    files: Seq<FileRecordView>,
    root: Seq<char>,
    seen: Seq<Seq<char>>,
    now: i64,
) -> Seq<FileRecordView> {
    Seq::new(files.len(), |i: int| closed_record(files[i], root, seen, now))
}

/// The audit rows that the closing step appends, in table order.
pub open spec fn missing_entries(
    files: Seq<FileRecordView>,
    root: Seq<char>,
    seen: Seq<Seq<char>>,
    session_id: Seq<char>,
) -> Seq<ScanEntryView>
    decreases files.len(),
{
    if files.len() == 0 {
        Seq::empty()
    } else {
        let front = missing_entries(files.drop_last(), root, seen, session_id);
        if goes_missing(files.last(), root, seen) {
            front.push(missing_entry(session_id, files.last()))
        } else {
            front
        }
    }
}

/// The state of one scan pass.
#[derive(Debug)]
pub struct ScanRun {
    pub session: ScanSession,
    pub entries: Vec<ScanEntry>,
    pub seen: Vec<String>,
    pub stats: ScanStats,
}

/// Mathematical value of a [`ScanRun`].
pub struct ScanRunView {
    pub session_id: Seq<char>,
    pub root_path: Seq<char>,
    pub started_at: i64,
    pub ended_at: Option<i64>,
    pub status: SessionStatus,
    pub entries: Seq<ScanEntryView>,
    pub seen: Seq<Seq<char>>,
    pub stats: ScanStats,
}

impl View for ScanRun {
    type V = ScanRunView;

    open spec fn view(&self) -> ScanRunView {
        ScanRunView {
            session_id: self.session.id@,
            root_path: self.session.root_path@,
            started_at: self.session.started_at,
            ended_at: self.session.ended_at,
            status: self.session.status,
            entries: entry_views(self.entries@),
            seen: crate::records::texts(self.seen@),
            stats: self.stats,
        }
    }
}

impl ScanRunView {
    /// The run after one more audit row.
    pub open spec fn logged(self, entry: ScanEntryView) -> ScanRunView {
        ScanRunView {
            entries: self.entries.push(entry),
            stats: self.stats.bumped(entry.action),
            ..self
        }
    }

    /// Whether `after` differs from this run only in that the audit rows
    /// `lost`, all of them for missing files, were appended and counted.
    /// The session's status and end time are left open.
    pub open spec fn extended_by(self, after: ScanRunView, lost: Seq<ScanEntryView>) -> bool {
        &&& after.session_id == self.session_id
        &&& after.root_path == self.root_path
        &&& after.started_at == self.started_at
        &&& after.seen == self.seen
        &&& after.entries == self.entries + lost
        &&& after.stats.added == self.stats.added
        &&& after.stats.updated == self.stats.updated
        &&& after.stats.moved == self.stats.moved
        &&& after.stats.unchanged == self.stats.unchanged
        &&& after.stats.missing == self.stats.missing + lost.len()
    }

    /// The run after a path has been noted as visited.
    pub open spec fn noted(self, path: Seq<char>) -> ScanRunView {
        ScanRunView { seen: self.seen.push(path), ..self }
    }
}


/// The file name recorded for `path`.
pub fn name_for(path: &str) -> (name: String)
    ensures
        name@ == recorded_name(path@),
{
    match crate::paths::file_name(path) {
        Some(n) => n,
        None => copy_string("file"),
    }
}

/// The extension recorded for `path`: lower case, with its dot.
pub fn extension_for(path: &str) -> (ext: String)
    ensures
        ext@ == dotted_extension(path@),
{
    let mut dotted = String::new();
    dotted.push('.');
    assert(dotted@ =~= seq!['.']);
    match crate::paths::extension(path) {
        Some(e) => {
            let v = crate::text::chars_of(e.as_str());
            let mut i: usize = 0;
            while i < v.len()
                invariant
                    i <= v.len(),
                    dotted@ == seq!['.'] + v@.subrange(0, i as int),
                decreases v.len() - i,
            {
                dotted.push(v[i]);
                assert(v@.subrange(0, i + 1) == v@.subrange(0, i as int).push(v@[i as int]));
                i += 1;
            }
            assert(v@.subrange(0, v.len() as int) == v@);
        },
        None => {
            assert(seq!['.'] + Seq::<char>::empty() =~= seq!['.']);
        },
    }
    crate::text::to_lowercase(dotted.as_str())
}

/// Whether the scanner visits the file at `path`: its extension, in any
/// letter case, is one of the two supported container formats.
pub fn is_scan_target(path: &str) -> (b: bool)
    ensures
        b == (dotted_extension(path@) == ".epub"@ || dotted_extension(path@) == ".pdf"@),
{
    let ext = extension_for(path);
    crate::text::same_text(ext.as_str(), ".epub") || crate::text::same_text(ext.as_str(), ".pdf")
}

/// The title a new item starts with.
pub fn title_seed(path: &str) -> (title: Option<String>)
    ensures
        opt_view(title) == seeded_title(path@),
{
    match crate::paths::file_stem(path) {
        Some(stem) => {
            let v = crate::text::chars_of(stem.as_str());
            let mut out = String::new();
            let mut i: usize = 0;
            while i < v.len()
                invariant
                    i <= v.len(),
                    out@ == spaced(v@).subrange(0, i as int),
                decreases v.len() - i,
            {
                let c = if v[i] == '_' {
                    ' '
                } else {
                    v[i]
                };
                out.push(c);
                assert(spaced(v@).subrange(0, i + 1) == spaced(v@).subrange(0, i as int).push(c));
                i += 1;
            }
            assert(spaced(v@).subrange(0, v.len() as int) == spaced(v@));
            Some(out)
        },
        None => None,
    }
}

/// Whether `list` holds a string spelled like `s`.
pub fn holds_text(list: &Vec<String>, s: &str) -> (b: bool)
    ensures
        b == crate::records::texts(list@).contains(s@),
{
    let mut i: usize = 0;
    while i < list.len()
        invariant
            i <= list.len(),
            forall|k: int| 0 <= k < i ==> crate::records::texts(list@)[k] != s@,
        decreases list.len() - i,
    {
        if crate::text::same_text(list[i].as_str(), s) {
            assert(crate::records::texts(list@)[i as int] == s@);
            return true;
        }
        i += 1;
    }
    false
}

impl Library {
    /// Position of the first item with identifier `id`.
    pub fn find_item(&self, id: &str) -> (found: Option<usize>)
        ensures
            match found {
                Some(i) => item_with_id(self@.items, id@) == Some(i as int) && i
                    < self.items.len(),
                None => item_with_id(self@.items, id@) is None,
            },
    {
        let mut i: usize = self.items.len();
        assert(self@.items.subrange(0, i as int) == self@.items);
        let mut found: Option<usize> = None;
        while i > 0
            invariant
                i <= self.items.len(),
                match found {
                    Some(f) => i <= f < self.items.len() && self@.items[f as int].id == id@
                        && forall|k: int| i <= k < f ==> self@.items[k].id != id@,
                    None => forall|k: int| i <= k < self.items.len() ==> self@.items[k].id != id@,
                },
            decreases i,
        {
            i -= 1;
            if crate::text::same_text(self.items[i].id.as_str(), id) {
                found = Some(i);
            }
        }
        proof {
            lemma_item_with_id(self@.items, id@);
        }
        found
    }
}

/// `item_with_id` returns the first item with the identifier, or nothing
/// when there is none.
pub proof fn lemma_item_with_id(items: Seq<ItemView>, id: Seq<char>)
    ensures
        match item_with_id(items, id) {
            Some(i) => 0 <= i < items.len() && items[i].id == id && forall|j: int|
                0 <= j < i ==> items[j].id != id,
            None => forall|j: int| 0 <= j < items.len() ==> items[j].id != id,
        },
    decreases items.len(),
{
    if items.len() > 0 {
        let front = items.drop_last();
        lemma_item_with_id(front, id);
        assert(forall|j: int| 0 <= j < front.len() ==> front[j] == items[j]);
    }
}

impl ScanRun {
    /// The counters account for every audit row.
    pub open spec fn wf(&self) -> bool {
        self.stats.total() == self.entries@.len()
    }

    /// Opens a pass over `root`: the session is running and nothing has been
    /// visited.
    pub fn begin(session_id: String, root: &str, now: i64) -> (run: ScanRun)
        ensures
            run.wf(),
            run@ == (ScanRunView {
                session_id: session_id@,
                root_path: root@,
                started_at: now,
                ended_at: None,
                status: SessionStatus::Running,
                entries: Seq::empty(),
                seen: Seq::empty(),
                stats: ScanStats { added: 0, updated: 0, moved: 0, unchanged: 0, missing: 0 },
            }),
    {
        let run = ScanRun {
            session: ScanSession {
                id: session_id,
                root_path: copy_string(root),
                started_at: now,
                ended_at: None,
                status: SessionStatus::Running,
            },
            entries: Vec::new(),
            seen: Vec::new(),
            stats: ScanStats { added: 0, updated: 0, moved: 0, unchanged: 0, missing: 0 },
        };
        assert(entry_views(run.entries@) =~= Seq::empty());
        assert(crate::records::texts(run.seen@) =~= Seq::empty());
        run
    }

    /// Appends an audit row and counts it.
    fn log(&mut self, entry: ScanEntry)
        requires
            old(self).wf(),
        ensures
            final(self).wf(),
            final(self)@ == old(self)@.logged(entry@),
    {
        let action = entry.action;
        self.entries.push(entry);
        let rows: usize = self.entries.len();
        assert(self.stats.total() + 1 == rows);
        match action {
            ScanAction::Added => {
                self.stats.added += 1;
            },
            ScanAction::Updated => {
                self.stats.updated += 1;
            },
            ScanAction::Moved => {
                self.stats.moved += 1;
            },
            ScanAction::Unchanged => {
                self.stats.unchanged += 1;
            },
            ScanAction::Missing => {
                self.stats.missing += 1;
            },
        }
        assert(entry_views(self.entries@) =~= entry_views(old(self).entries@).push(entry@));
    }

    /// Notes `path` as visited in this pass.
    fn note(&mut self, path: &str)
        requires
            old(self).wf(),
        ensures
            final(self).wf(),
            final(self)@ == old(self)@.noted(path@),
    {
        let owned = copy_string(path);
        self.seen.push(owned);
        assert(crate::records::texts(self.seen@) =~= crate::records::texts(old(self).seen@).push(
            path@,
        ));
    }

    /// The fast path. Where the live record at the observed path has the
    /// observed size and modification time, the file is unchanged: a missing
    /// record is reactivated, the visit is logged, and no fingerprint is
    /// asked for. Otherwise nothing but the visit is noted.
    pub fn probe(&mut self, lib: &mut Library, obs: &Observed, now: i64) -> (p: Probe)
        requires
            old(self).wf(),
        ensures
            final(self).wf(),
            match fast_match(old(lib)@.files, obs@) {
                Some(i) => {
                    &&& p == Probe::Unchanged
                    &&& final(lib)@ == (LibraryView {
                        files: old(lib)@.files.update(i, reactivated(old(lib)@.files[i], now)),
                        ..old(lib)@
                    })
                    &&& final(self)@ == old(self)@.noted(obs@.path).logged(
                        visit_entry(
                            old(self)@.session_id,
                            obs@,
                            None,
                            ScanAction::Unchanged,
                            old(lib)@.files[i].id,
                        ),
                    )
                },
                None => {
                    &&& p == Probe::NeedsFingerprint
                    &&& final(lib)@ == old(lib)@
                    &&& final(self)@ == old(self)@.noted(obs@.path)
                },
            },
    {
        self.note(obs.path.as_str());
        proof {
            crate::records::lemma_live_at(lib@.files, obs@.path);
        }
        match lib.find_live_at(obs.path.as_str()) {
            Some(i) => {
                let rec = &lib.files[i];
                assert(lib@.files[i as int] == rec@);
                let same_time = match (rec.modified_at, obs.modified_at) {
                    (Some(a), Some(b)) => a == b,
                    (None, None) => true,
                    _ => false,
                };
                let same_size = match rec.size_bytes {
                    Some(a) => a == obs.size_bytes,
                    None => false,
                };
                if same_time && same_size {
                    let file_id = rec.id.clone();
                    if !rec.is_live() || !rec.is_active() {
                        let mut revived = rec.duplicate();
                        revived.status = FileStatus::Active;
                        revived.updated_at = now;
                        lib.files.set(i, revived);
                    }
                    assert(file_views(lib.files@) =~= old(lib)@.files.update(
                        i as int,
                        reactivated(old(lib)@.files[i as int], now),
                    ));
                    let entry = ScanEntry {
                        session_id: self.session.id.clone(),
                        path: obs.path.clone(),
                        size_bytes: Some(obs.size_bytes),
                        modified_at: obs.modified_at,
                        fingerprint: None,
                        action: ScanAction::Unchanged,
                        file_id,
                    };
                    self.log(entry);
                    Probe::Unchanged
                } else {
                    Probe::NeedsFingerprint
                }
            },
            None => Probe::NeedsFingerprint,
        }
    }

    /// Marks a running session failed. Nothing else changes, and a session
    /// that has ended stays as it ended.
    pub fn fail(&mut self, ended_at: i64)
        ensures
            final(self)@ == if old(self)@.status == SessionStatus::Running {
                ScanRunView {
                    status: SessionStatus::Failed,
                    ended_at: Some(ended_at),
                    ..old(self)@
                }
            } else {
                old(self)@
            },
            old(self).wf() ==> final(self).wf(),
    {
        match self.session.status {
            SessionStatus::Running => {
                self.session.status = SessionStatus::Failed;
                self.session.ended_at = Some(ended_at);
            },
            _ => {},
        }
    }

    /// The slow path. Classifies a file by its content fingerprint and
    /// updates the record store accordingly:
    ///
    /// * a live record shares the fingerprint and its own path still exists:
    ///   the file is a duplicate, and gets a new record under the same item,
    ///   with an issue raised against the original;
    /// * a live record shares the fingerprint and its own path is gone: the
    ///   file has moved, and that record is pointed at the new path;
    /// * no record shares the fingerprint but a live one sits at this path:
    ///   the content was updated in place, and that record is refreshed;
    /// * otherwise the file is new, and gets a new item and a new record.
    ///
    /// The visit is logged. Settling fails, and changes nothing, exactly when
    /// a row would have to be created under an identifier already in use.
    pub fn settle(
        &mut self,
        lib: &mut Library,
        obs: &Observed,
        fingerprint: &str,
        old_exists: bool,
        ids: FreshIds,
        now: i64,
    ) -> (r: Result<Verdict, ScanError>)
        requires
            old(self).wf(),
        ensures
            final(self).wf(),
            match settle_error(
                old(lib)@,
                obs@,
                fingerprint@,
                old_exists,
                ids.file@,
                ids.item@,
            ) {
                Some(e) => {
                    &&& r == Err::<Verdict, ScanError>(e)
                    &&& final(lib)@ == old(lib)@
                    &&& final(self)@ == old(self)@
                },
                None => {
                    &&& r == Ok::<Verdict, ScanError>(
                        verdict_of(old(lib)@.files, obs@, fingerprint@, old_exists),
                    )
                    &&& final(lib)@ == settled(
                        old(lib)@,
                        obs@,
                        fingerprint@,
                        old_exists,
                        ids.file@,
                        ids.item@,
                        now,
                    )
                    &&& final(self)@ == old(self)@.logged(
                        visit_entry(
                            old(self)@.session_id,
                            obs@,
                            Some(fingerprint@),
                            action_of(verdict_of(old(lib)@.files, obs@, fingerprint@, old_exists)),
                            settled_file_id(
                                old(lib)@.files,
                                obs@,
                                fingerprint@,
                                old_exists,
                                ids.file@,
                            ),
                        ),
                    )
                },
            },
    {
        let path = obs.path.as_str();
        proof {
            crate::records::lemma_best_match(lib@.files, fingerprint@);
            crate::records::lemma_live_at(lib@.files, obs@.path);
        }
        let verdict;
        let file_id;
        match lib.find_fingerprint(fingerprint) {
            Some(i) => {
                assert(lib@.files[i as int] == lib.files@[i as int]@);
                if old_exists {
                    if lib.find_id(ids.file.as_str()).is_some() {
                        return Err(ScanError::FileIdTaken);
                    }
                    let original = &lib.files[i];
                    let issue = Issue {
                        item_id: original.item_id.clone(),
                        file_id: Some(original.id.clone()),
                        kind: IssueKind::Duplicate,
                        message: copy_string("Duplicate content detected by hash."),
                        created_at: now,
                        resolved_at: None,
                    };
                    let copy = FileRecord {
                        id: ids.file,
                        item_id: original.item_id.clone(),
                        path: obs.path.clone(),
                        filename: name_for(path),
                        extension: extension_for(path),
                        size_bytes: Some(obs.size_bytes),
                        modified_at: obs.modified_at,
                        fingerprint: Some(copy_string(fingerprint)),
                        hash_algo: Some(HashAlgo::Sha256),
                        status: FileStatus::Active,
                        created_at: now,
                        updated_at: now,
                    };
                    file_id = copy.id.clone();
                    lib.files.push(copy);
                    lib.issues.push(issue);
                    assert(file_views(lib.files@) =~= old(lib)@.files.push(
                        created(
                            ids.file@,
                            old(lib)@.files[i as int].item_id,
                            obs@,
                            fingerprint@,
                            now,
                        ),
                    ));
                    assert(issue_views(lib.issues@) =~= old(lib)@.issues.push(
                        duplicate_issue(old(lib)@.files[i as int], now),
                    ));
                    assert(item_views(lib.items@) =~= old(lib)@.items);
                    verdict = Verdict::Duplicate;
                } else {
                    let mut rec = lib.files[i].duplicate();
                    rec.path = obs.path.clone();
                    rec.filename = name_for(path);
                    rec.extension = extension_for(path);
                    rec.size_bytes = Some(obs.size_bytes);
                    rec.modified_at = obs.modified_at;
                    rec.updated_at = now;
                    rec.status = FileStatus::Active;
                    file_id = rec.id.clone();
                    lib.files.set(i, rec);
                    assert(file_views(lib.files@) =~= old(lib)@.files.update(
                        i as int,
                        relocated(old(lib)@.files[i as int], obs@, now),
                    ));
                    verdict = Verdict::Moved;
                }
            },
            None => match lib.find_live_at(path) {
                Some(j) => {
                    assert(lib@.files[j as int] == lib.files@[j as int]@);
                    let mut rec = lib.files[j].duplicate();
                    rec.filename = name_for(path);
                    rec.extension = extension_for(path);
                    rec.size_bytes = Some(obs.size_bytes);
                    rec.modified_at = obs.modified_at;
                    rec.fingerprint = Some(copy_string(fingerprint));
                    rec.hash_algo = Some(HashAlgo::Sha256);
                    rec.updated_at = now;
                    rec.status = FileStatus::Active;
                    file_id = rec.id.clone();
                    lib.files.set(j, rec);
                    assert(file_views(lib.files@) =~= old(lib)@.files.update(
                        j as int,
                        refreshed(old(lib)@.files[j as int], obs@, fingerprint@, now),
                    ));
                    verdict = Verdict::Updated;
                },
                None => {
                    if lib.find_item(ids.item.as_str()).is_some() {
                        return Err(ScanError::ItemIdTaken);
                    }
                    if lib.find_id(ids.file.as_str()).is_some() {
                        return Err(ScanError::FileIdTaken);
                    }
                    let item = Item {
                        id: ids.item.clone(),
                        title: title_seed(path),
                        language: None,
                        published_year: None,
                        description: None,
                        series: None,
                        authors: Vec::new(),
                        identifiers: Vec::new(),
                        created_at: now,
                        updated_at: now,
                    };
                    assert(crate::records::texts(item.authors@) =~= Seq::empty());
                    assert(crate::records::identifier_views(item.identifiers@) =~= Seq::empty());
                    let rec = FileRecord {
                        id: ids.file,
                        item_id: ids.item,
                        path: obs.path.clone(),
                        filename: name_for(path),
                        extension: extension_for(path),
                        size_bytes: Some(obs.size_bytes),
                        modified_at: obs.modified_at,
                        fingerprint: Some(copy_string(fingerprint)),
                        hash_algo: Some(HashAlgo::Sha256),
                        status: FileStatus::Active,
                        created_at: now,
                        updated_at: now,
                    };
                    file_id = rec.id.clone();
                    lib.files.push(rec);
                    lib.items.push(item);
                    assert(file_views(lib.files@) =~= old(lib)@.files.push(
                        created(ids.file@, ids.item@, obs@, fingerprint@, now),
                    ));
                    assert(item_views(lib.items@) =~= old(lib)@.items.push(
                        seeded_item(ids.item@, obs@.path, now),
                    ));
                    assert(issue_views(lib.issues@) =~= old(lib)@.issues);
                    verdict = Verdict::Added;
                },
            },
        }
        let action = match verdict {
            Verdict::Duplicate => ScanAction::Added,
            Verdict::Moved => ScanAction::Moved,
            Verdict::Updated => ScanAction::Updated,
            Verdict::Added => ScanAction::Added,
        };
        let entry = ScanEntry {
            session_id: self.session.id.clone(),
            path: obs.path.clone(),
            size_bytes: Some(obs.size_bytes),
            modified_at: obs.modified_at,
            fingerprint: Some(copy_string(fingerprint)),
            action,
            file_id,
        };
        self.log(entry);
        Ok(verdict)
    }

    /// The closing step of a successful pass. Every active record whose path
    /// lies under the root and was not visited becomes missing, with an
    /// audit row each, in table order. No record is removed or retired. The
    /// session ends in `success`. A session that has ended already stays as
    /// it ended, and nothing is closed a second time.
    pub fn finish(&mut self, lib: &mut Library, now: i64, ended_at: i64)
        requires
            old(self).wf(),
        ensures
            final(self).wf(),
            old(self)@.status != SessionStatus::Running ==> final(lib)@ == old(lib)@ && final(self)@
                == old(self)@,
            old(self)@.status == SessionStatus::Running ==> {
                &&& final(lib)@ == (LibraryView {
                    files: closed_files(
                        old(lib)@.files,
                        old(self)@.root_path,
                        old(self)@.seen,
                        now,
                    ),
                    ..old(lib)@
                })
                &&& final(self)@.status == SessionStatus::Success
                &&& final(self)@.ended_at == Some(ended_at)
                &&& old(self)@.extended_by(
                    final(self)@,
                    missing_entries(
                        old(lib)@.files,
                        old(self)@.root_path,
                        old(self)@.seen,
                        old(self)@.session_id,
                    ),
                )
            },
    {
        match self.session.status {
            SessionStatus::Running => {},
            _ => {
                return ;
            },
        }
        let root = crate::text::copy_string(self.session.root_path.as_str());
        let ghost files0 = lib@.files;
        let ghost run0 = self@;
        let ghost seen0 = self@.seen;
        let mut i: usize = 0;
        assert(files0.subrange(0, 0) =~= Seq::empty());
        assert(run0.entries + Seq::<ScanEntryView>::empty() =~= run0.entries);
        while i < lib.files.len()
            invariant
                i <= lib.files.len(),
                lib.files.len() == files0.len(),
                self.wf(),
                root@ == run0.root_path,
                seen0 == run0.seen,
                lib@.items == old(lib)@.items,
                lib@.issues == old(lib)@.issues,
                forall|k: int|
                    0 <= k < i ==> #[trigger] lib@.files[k] == closed_record(
                        files0[k],
                        run0.root_path,
                        seen0,
                        now,
                    ),
                forall|k: int| i <= k < files0.len() ==> #[trigger] lib@.files[k] == files0[k],
                self@.status == run0.status,
                self@.ended_at == run0.ended_at,
                run0.extended_by(
                    self@,
                    missing_entries(
                        files0.subrange(0, i as int),
                        run0.root_path,
                        seen0,
                        run0.session_id,
                    ),
                ),
            decreases lib.files.len() - i,
        {
            let ghost before = missing_entries(
                files0.subrange(0, i as int),
                run0.root_path,
                seen0,
                run0.session_id,
            );
            let ghost next = files0.subrange(0, i + 1);
            assert(next.drop_last() == files0.subrange(0, i as int));
            assert(next.last() == files0[i as int]);
            assert(lib@.files[i as int] == lib.files@[i as int]@);
            let rec = &lib.files[i];
            let active = rec.is_active();
            let under = crate::paths::is_under(rec.path.as_str(), root.as_str());
            let visited = holds_text(&self.seen, rec.path.as_str());
            let lost = active && under && !visited;
            assert(rec@ == files0[i as int]);
            assert(active == (files0[i as int].status == FileStatus::Active));
            assert(under == crate::paths::lies_under(files0[i as int].path, run0.root_path));
            assert(self@.seen == seen0);
            assert(visited == seen0.contains(files0[i as int].path));
            assert(lost == goes_missing(files0[i as int], run0.root_path, seen0));
            if lost {
                let entry = ScanEntry {
                    session_id: self.session.id.clone(),
                    path: rec.path.clone(),
                    size_bytes: None,
                    modified_at: None,
                    fingerprint: None,
                    action: ScanAction::Missing,
                    file_id: rec.id.clone(),
                };
                let mut gone = rec.duplicate();
                gone.status = FileStatus::Missing;
                gone.updated_at = now;
                let ghost mid = lib@.files;
                lib.files.set(i, gone);
                assert(lib@.files =~= mid.update(
                    i as int,
                    closed_record(files0[i as int], run0.root_path, seen0, now),
                ));
                self.log(entry);
                assert(run0.entries + before.push(missing_entry(run0.session_id, files0[i as int]))
                    =~= (run0.entries + before).push(
                    missing_entry(run0.session_id, files0[i as int]),
                ));
            }
            i += 1;
        }
        assert(files0.subrange(0, i as int) == files0);
        assert(lib@.files =~= closed_files(files0, run0.root_path, seen0, now));
        self.session.status = SessionStatus::Success;
        self.session.ended_at = Some(ended_at);
    }

    /// The notification that goes out for the file at `path`: how many files
    /// the pass has visited, how many there are to visit, and the name of
    /// the file.
    pub fn progress(&self, total: usize, path: &str) -> (p: ScanProgress)
        ensures
            p.processed == self@.seen.len(),
            p.total == total,
            p.current@ == recorded_name(path@),
    {
        ScanProgress { processed: self.seen.len(), total, current: name_for(path) }
    }
}

/// Notification about the progress of a scan.
#[derive(Debug)]
pub struct ScanProgress {
    pub processed: usize,
    pub total: usize,
    pub current: String,
}

} // verus!
