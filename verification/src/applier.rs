//! The change applier's decisions.
//!
//! A batch is a list of positions in the queue. For the change whose turn it
//! is, [`ChangeQueue::plan`] names the one thing that has to happen outside
//! (move a file, remove a file, rewrite embedded metadata) or rejects the
//! change for what it lacks. [`ChangeQueue::conclude`] takes the outcome of
//! that step and settles the change: `applied` or `error`, with the record
//! store brought in line. Nothing here aborts a batch.

use vstd::prelude::*;
use crate::changes::{ChangeKind, ChangeQueue, ChangeStatus, PendingChange, PendingChangeView};
use crate::paths::{extension_of, parent_of};
use crate::records::{
    file_views, lemma_with_id, opt_view, with_id, FileRecordView, FileStatus, IssueKind,
    IssueView, Library, LibraryView,
};
use crate::scanner::recorded_name;
use crate::text::copy_string;

verus! {

/// What has to happen outside the library for a change to take effect.
#[derive(Debug)]
pub enum Step {
    /// Create `dir` and everything above it, then move `from` to `to`.
    MoveFile { from: String, to: String, dir: String },
    /// Remove the file at `path`.
    RemoveFile { path: String },
    /// Decode `payload` and rewrite the metadata embedded in `path`.
    RewriteMetadata { path: String, payload: String },
    /// Nothing: the change cannot be applied, for the reason given.
    Reject { message: String },
}

/// Mathematical value of a [`Step`].
pub enum StepView {
    MoveFile { from: Seq<char>, to: Seq<char>, dir: Seq<char> },
    RemoveFile { path: Seq<char> },
    RewriteMetadata { path: Seq<char>, payload: Seq<char> },
    Reject { message: Seq<char> },
}

impl View for Step {
    type V = StepView;

    open spec fn view(&self) -> StepView {
        match self {
            Step::MoveFile { from, to, dir } => StepView::MoveFile {
                from: from@,
                to: to@,
                dir: dir@,
            },
            Step::RemoveFile { path } => StepView::RemoveFile { path: path@ },
            Step::RewriteMetadata { path, payload } => StepView::RewriteMetadata {
                path: path@,
                payload: payload@,
            },
            Step::Reject { message } => StepView::Reject { message: message@ },
        }
    }
}

/// How the outside step went.
#[derive(Debug)]
pub enum Outcome {
    /// It was carried out.
    Done,
    /// It failed. `not_found` says that the file it was about is not there.
    Failed { not_found: bool, message: String },
}

/// Mathematical value of an [`Outcome`].
pub enum OutcomeView {
    Done,
    Failed { not_found: bool, message: Seq<char> },
}

impl View for Outcome {
    type V = OutcomeView;

    open spec fn view(&self) -> OutcomeView {
        match self {
            Outcome::Done => OutcomeView::Done,
            Outcome::Failed { not_found, message } => OutcomeView::Failed {
                not_found: *not_found,
                message: message@,
            },
        }
    }
}

/// Status of a progress notification.
#[derive(Clone, Copy, Debug, PartialEq, Eq, Structural)]
pub enum ProgressStatus {
    Processing,
    Done,
    Skipped,
    Error,
}

/// Notification about one item of a long operation.
#[derive(Debug)]
pub struct OperationProgress {
    pub item_id: String,
    pub status: ProgressStatus,
    pub message: Option<String>,
    pub current: usize,
    pub total: usize,
}

/// Mathematical value of an [`OperationProgress`].
pub struct OperationProgressView {
    pub item_id: Seq<char>,
    pub status: ProgressStatus,
    pub message: Option<Seq<char>>,
    pub current: int,
    pub total: int,
}

impl View for OperationProgress {
    type V = OperationProgressView;

    open spec fn view(&self) -> OperationProgressView {
        OperationProgressView {
            item_id: self.item_id@,
            status: self.status,
            message: opt_view(self.message),
            current: self.current as int,
            total: self.total as int,
        }
    }
}

/// Final summary of a long operation.
#[derive(Clone, Copy, Debug, PartialEq, Eq, Structural)]
pub struct OperationStats {
    pub total: usize,
    pub processed: usize,
    pub skipped: usize,
    pub errors: usize,
}

/// The path a rename starts from: the one staged with the change, or else
/// the one on record for the file.
pub open spec fn rename_source(c: PendingChangeView, files: Seq<FileRecordView>) -> Option<
    Seq<char>,
> {
    match c.from_path {
        Some(p) => Some(p),
        None => match with_id(files, c.file_id) {
            Some(i) => Some(files[i].path),
            None => None,
        },
    }
}

/// The step that a change calls for.
pub open spec fn step_of(c: PendingChangeView, files: Seq<FileRecordView>) -> StepView {
    match c.kind {
        ChangeKind::Rename => match rename_source(c, files) {
            None => StepView::Reject { message: "Unknown file"@ },
            Some(from) => match c.to_path {
                None => StepView::Reject { message: "Missing target path"@ },
                Some(to) => match parent_of(to) {
                    None => StepView::Reject { message: "Invalid target path"@ },
                    Some(dir) => StepView::MoveFile { from, to, dir },
                },
            },
        },
        ChangeKind::Delete => match c.from_path {
            None => StepView::Reject { message: "Missing file path"@ },
            Some(path) => StepView::RemoveFile { path },
        },
        ChangeKind::MetadataEdit => match c.from_path {
            None => StepView::Reject { message: "Missing EPUB path"@ },
            Some(path) => match c.payload {
                None => StepView::Reject { message: "Missing changes"@ },
                Some(payload) => StepView::RewriteMetadata { path, payload },
            },
        },
        ChangeKind::Unsupported => StepView::Reject { message: "Unsupported change type"@ },
    }
}

/// The error that a change ends with, if it fails. A rejected change fails
/// with its reason, whatever the outcome handed in. A removal that failed
/// because the file is not there counts as done.
pub open spec fn failure_of(
    c: PendingChangeView,
    files: Seq<FileRecordView>,
    outcome: OutcomeView,
) -> Option<Seq<char>> {
    match step_of(c, files) {
        StepView::Reject { message } => Some(message),
        StepView::RemoveFile { path } => match outcome {
            OutcomeView::Done => None,
            OutcomeView::Failed { not_found, message } => if not_found {
                None
            } else {
                Some("Could not delete file "@ + path + ": "@ + message)
            },
        },
        _ => match outcome {
            OutcomeView::Done => None,
            OutcomeView::Failed { not_found, message } => Some(message),
        },
    }
}

/// A change after it has been settled.
pub open spec fn settled_change(
    c: PendingChangeView,
    failure: Option<Seq<char>>,
    now: i64,
) -> PendingChangeView {
    match failure {
        None => PendingChangeView {
            status: ChangeStatus::Applied,
            applied_at: Some(now),
            error: None,
            ..c
        },
        Some(m) => PendingChangeView { status: ChangeStatus::Error, error: Some(m), ..c },
    }
}

/// A record after its file has been moved to `to`.
pub open spec fn renamed(r: FileRecordView, to: Seq<char>, now: i64) -> FileRecordView {
    FileRecordView {
        path: to,
        filename: recorded_name(to),
        extension: match extension_of(to) {
            Some(e) => e,
            None => Seq::<char>::empty(),
        },
        updated_at: now,
        ..r
    }
}

/// A record after its file has been deleted.
pub open spec fn retired(r: FileRecordView, now: i64) -> FileRecordView {
    FileRecordView { status: FileStatus::Inactive, updated_at: now, ..r }
}

/// A record after the deletion of its file has failed: visible again,
/// unless it was retired before.
pub open spec fn restored(r: FileRecordView, now: i64) -> FileRecordView {
    if r.status == FileStatus::Inactive {
        r
    } else {
        FileRecordView { status: FileStatus::Active, updated_at: now, ..r }
    }
}

/// The record of the changed file after the change has been settled.
pub open spec fn record_after(
    r: FileRecordView,
    c: PendingChangeView,
    files: Seq<FileRecordView>,
    outcome: OutcomeView,
    now: i64,
) -> FileRecordView {
    match step_of(c, files) {
        StepView::MoveFile { from, to, dir } => if failure_of(c, files, outcome) is None {
            renamed(r, to, now)
        } else {
            r
        },
        StepView::RemoveFile { path } => if failure_of(c, files, outcome) is None {
            retired(r, now)
        } else {
            restored(r, now)
        },
        _ => r,
    }
}

/// The file table after a change has been settled. Only the first record
/// with the identifier that the change names can differ.
pub open spec fn files_after(
    c: PendingChangeView,
    files: Seq<FileRecordView>,
    outcome: OutcomeView,
    now: i64,
) -> Seq<FileRecordView> {
    match with_id(files, c.file_id) {
        None => files,
        Some(i) => files.update(i, record_after(files[i], c, files, outcome, now)),
    }
}

/// Whether settling a change resolves an issue: the change removed the file
/// that an open duplicate issue points at.
pub open spec fn resolves(
    x: IssueView,
    c: PendingChangeView,
    files: Seq<FileRecordView>,
    outcome: OutcomeView,
) -> bool {
    &&& step_of(c, files) is RemoveFile
    &&& failure_of(c, files, outcome) is None
    &&& x.kind == IssueKind::Duplicate
    &&& x.file_id == Some(c.file_id)
    &&& x.resolved_at is None
}

/// The issue table after a change has been settled.
pub open spec fn issues_after(
    issues: Seq<IssueView>,
    c: PendingChangeView,
    files: Seq<FileRecordView>,
    outcome: OutcomeView,
    now: i64,
) -> Seq<IssueView> {
    Seq::new(
        issues.len(),
        |k: int|
            if resolves(issues[k], c, files, outcome) {
                IssueView { resolved_at: Some(now), ..issues[k] }
            } else {
                issues[k]
            },
    )
}

/// The record store after a change has been settled.
pub open spec fn library_after(
    lib: LibraryView,
    c: PendingChangeView,
    outcome: OutcomeView,
    now: i64,
) -> LibraryView {
    LibraryView {
        files: files_after(c, lib.files, outcome, now),
        issues: issues_after(lib.issues, c, lib.files, outcome, now),
        ..lib
    }
}

/// Whether the change at position `i` of `q` is pending.
pub open spec fn pending_at(q: Seq<PendingChangeView>, i: int) -> bool {
    0 <= i < q.len() && q[i].status == ChangeStatus::Pending
}

/// Whether the change at `a` is applied before the change at `b` when
/// changes go oldest first: it was created earlier, or at the same time and
/// staged earlier.
pub open spec fn precedes(q: Seq<PendingChangeView>, a: int, b: int) -> bool {
    q[a].created_at < q[b].created_at || (q[a].created_at == q[b].created_at && a < b)
}

/// Whether `order` lists every pending change of `q` once, oldest first.
pub open spec fn oldest_first(q: Seq<PendingChangeView>, order: Seq<usize>) -> bool {
    &&& forall|k: int| 0 <= k < order.len() ==> pending_at(q, #[trigger] order[k] as int)
    &&& forall|i: int| #[trigger]
        pending_at(q, i) ==> exists|k: int| 0 <= k < order.len() && #[trigger] order[k] == i
    &&& forall|a: int, b: int|
        0 <= a < b < order.len() ==> precedes(q, #[trigger] order[a] as int, #[trigger] order[b] as int)
}

/// Position of the first pending change with identifier `id`, if any.
pub open spec fn pending_with_id(q: Seq<PendingChangeView>, id: Seq<char>) -> Option<int>
    decreases q.len(),
{
    if q.len() == 0 {
        None
    } else {
        match pending_with_id(q.drop_last(), id) {
            Some(i) => Some(i),
            None => if q.last().status == ChangeStatus::Pending && q.last().id == id {
                Some(q.len() - 1)
            } else {
                None
            },
        }
    }
}

/// The positions picked by a list of identifiers: for each identifier in
/// turn the first pending change that bears it, where there is one.
pub open spec fn picked(q: Seq<PendingChangeView>, ids: Seq<Seq<char>>) -> Seq<int>
    decreases ids.len(),
{
    if ids.len() == 0 {
        Seq::empty()
    } else {
        let front = picked(q, ids.drop_last());
        match pending_with_id(q, ids.last()) {
            Some(i) => front.push(i),
            None => front,
        }
    }
}

/// The positions in `order`, as mathematical integers.
pub open spec fn positions(order: Seq<usize>) -> Seq<int> {
    Seq::new(order.len(), |k: int| order[k] as int)
}

/// `pending_with_id` returns the first pending change with the identifier,
/// or nothing when there is none.
pub proof fn lemma_pending_with_id(q: Seq<PendingChangeView>, id: Seq<char>)
    ensures
        match pending_with_id(q, id) {
            Some(i) => pending_at(q, i) && q[i].id == id && forall|j: int|
                0 <= j < i ==> !(#[trigger] pending_at(q, j) && q[j].id == id),
            None => forall|j: int| 0 <= j < q.len() ==> !(#[trigger] pending_at(q, j) && q[j].id == id),
        },
    decreases q.len(),
{
    if q.len() > 0 {
        let front = q.drop_last();
        lemma_pending_with_id(front, id);
        assert(forall|j: int| 0 <= j < front.len() ==> front[j] == q[j]);
        assert(forall|j: int| 0 <= j < front.len() ==> pending_at(front, j) == pending_at(q, j));
    }
}

/// One run of the applier over selected changes.
#[derive(Debug)]
pub struct Batch {
    /// Positions in the queue, in the order in which they are applied.
    pub order: Vec<usize>,
    /// How many of them have been settled.
    pub next: usize,
    /// The summary so far.
    pub stats: OperationStats,
}

impl Batch {
    /// The summary accounts for every settled change, and every position
    /// lies within a queue of `len` changes.
    pub open spec fn wf(&self, len: nat) -> bool {
        &&& self.next <= self.order@.len()
        &&& self.stats.total == self.order@.len()
        &&& self.stats.processed + self.stats.skipped + self.stats.errors == self.next
        &&& forall|k: int| 0 <= k < self.order@.len() ==> (#[trigger] self.order@[k]) < len
    }

    /// Whether every change of the batch has been settled.
    pub fn is_done(&self) -> (b: bool)
        ensures
            b == (self.next >= self.order@.len()),
    {
        self.next >= self.order.len()
    }

    /// Position in the queue of the change whose turn it is.
    pub fn current(&self) -> (idx: Option<usize>)
        ensures
            idx == if self.next < self.order@.len() {
                Some(self.order@[self.next as int])
            } else {
                None
            },
    {
        if self.next < self.order.len() {
            Some(self.order[self.next])
        } else {
            None
        }
    }
}

impl ChangeQueue {
    /// Position of the first pending change with identifier `id`.
    pub fn find_pending(&self, id: &str) -> (found: Option<usize>)
        ensures
            match found {
                Some(i) => pending_with_id(self@, id@) == Some(i as int) && i < self@.len(),
                None => pending_with_id(self@, id@) is None,
            },
    {
        let mut i: usize = self.changes.len();
        let mut found: Option<usize> = None;
        while i > 0
            invariant
                i <= self.changes.len(),
                match found {
                    Some(f) => i <= f < self.changes.len() && pending_at(self@, f as int)
                        && self@[f as int].id == id@ && forall|k: int|
                        i <= k < f ==> !(#[trigger] pending_at(self@, k) && self@[k].id == id@),
                    None => forall|k: int|
                        i <= k < self.changes.len() ==> !(#[trigger] pending_at(self@, k)
                            && self@[k].id == id@),
                },
            decreases i,
        {
            i -= 1;
            let c = &self.changes[i];
            assert(self@[i as int] == c@);
            if c.is_pending() && crate::text::same_text(c.id.as_str(), id) {
                found = Some(i);
            }
        }
        proof {
            lemma_pending_with_id(self@, id@);
        }
        found
    }

    /// Every pending change, oldest first.
    pub fn pending_oldest_first(&self) -> (order: Vec<usize>)
        ensures
            oldest_first(self@, order@),
    {
        let mut order: Vec<usize> = Vec::new();
        let mut i: usize = 0;
        while i < self.changes.len()
            invariant
                i <= self.changes.len(),
                forall|k: int|
                    0 <= k < order@.len() ==> pending_at(self@, #[trigger] order@[k] as int)
                        && order@[k] < i,
                forall|j: int|
                    0 <= j < i && #[trigger] pending_at(self@, j) ==> exists|k: int|
                        0 <= k < order@.len() && #[trigger] order@[k] == j,
                forall|a: int, b: int|
                    0 <= a < b < order@.len() ==> precedes(
                        self@,
                        #[trigger] order@[a] as int,
                        #[trigger] order@[b] as int,
                    ),
            decreases self.changes.len() - i,
        {
            let c = &self.changes[i];
            assert(self@[i as int] == c@);
            if c.is_pending() {
                let stamp = c.created_at;
                let mut p: usize = order.len();
                while p > 0 && self.changes[order[p - 1]].created_at > stamp
                    invariant
                        p <= order@.len(),
                        i < self.changes.len(),
                        stamp == self@[i as int].created_at,
                        forall|k: int|
                            0 <= k < order@.len() ==> pending_at(
                                self@,
                                #[trigger] order@[k] as int,
                            ) && order@[k] < i,
                        forall|k: int|
                            p <= k < order@.len() ==> self@[(#[trigger] order@[k]) as int].created_at
                                > stamp,
                    decreases p,
                {
                    assert(self@[order@[p - 1] as int] == self.changes@[order@[p - 1] as int]@);
                    p -= 1;
                }
                let ghost before = order@;
                proof {
                    if p > 0 {
                        assert(self@[before[p - 1] as int] == self.changes@[before[p - 1] as int]@);
                        assert(self@[before[p - 1] as int].created_at <= stamp);
                    }
                }
                order.insert(p, i);
                proof {
                    let after = order@;
                    assert(after == before.insert(p as int, i));
                    assert forall|k: int| 0 <= k < after.len() implies pending_at(
                        self@,
                        #[trigger] after[k] as int,
                    ) && after[k] < i + 1 by {
                        if k < p {
                            assert(after[k] == before[k]);
                        } else if k > p {
                            assert(after[k] == before[k - 1]);
                        }
                    }
                    assert forall|j: int| 0 <= j < i + 1 && #[trigger] pending_at(self@, j) implies exists|
                        k: int,
                    |
                        0 <= k < after.len() && #[trigger] after[k] == j by {
                        if j == i {
                            assert(after[p as int] == j);
                        } else {
                            let k0 = choose|k: int| 0 <= k < before.len() && #[trigger] before[k] == j;
                            if k0 < p {
                                assert(after[k0] == j);
                            } else {
                                assert(after[k0 + 1] == before[k0]);
                            }
                        }
                    }
                    assert forall|a: int, b: int| 0 <= a < b < after.len() implies precedes(
                        self@,
                        #[trigger] after[a] as int,
                        #[trigger] after[b] as int,
                    ) by {
                        let xa: int = if a < p {
                            a
                        } else {
                            a - 1
                        };
                        let xb: int = if b < p {
                            b
                        } else {
                            b - 1
                        };
                        if a != p {
                            assert(after[a] == before[xa]);
                        }
                        if b != p {
                            assert(after[b] == before[xb]);
                        }
                        if b == p {
                            // a < p: everything before p is no younger than its
                            // successor, down to the one just before p.
                            if a < p - 1 {
                                assert(precedes(self@, before[a] as int, before[p - 1] as int));
                            }
                        } else if a == p {
                            assert(self@[before[xb] as int].created_at > stamp);
                        } else {
                            assert(precedes(self@, before[xa] as int, before[xb] as int));
                        }
                    }
                }
            }
            i += 1;
        }
        order
    }

    /// Selects the changes to apply. An empty list of identifiers means every
    /// pending change, oldest first. Otherwise the listed identifiers are
    /// taken in turn, each standing for the first pending change that bears
    /// it; identifiers that no pending change bears are passed over.
    pub fn begin_batch(&self, ids: &Vec<String>) -> (batch: Batch)
        ensures
            batch.wf(self@.len()),
            batch.next == 0,
            batch.stats == (OperationStats {
                total: batch.order@.len() as usize,
                processed: 0,
                skipped: 0,
                errors: 0,
            }),
            ids@.len() == 0 ==> oldest_first(self@, batch.order@),
            ids@.len() > 0 ==> positions(batch.order@) == picked(self@, crate::records::texts(ids@)),
    {
        let order = if ids.len() == 0 {
            self.pending_oldest_first()
        } else {
            let mut order: Vec<usize> = Vec::new();
            let ghost names = crate::records::texts(ids@);
            let mut i: usize = 0;
            assert(names.subrange(0, 0) =~= Seq::empty());
            assert(positions(order@) =~= Seq::empty());
            while i < ids.len()
                invariant
                    i <= ids.len(),
                    names == crate::records::texts(ids@),
                    positions(order@) == picked(self@, names.subrange(0, i as int)),
                    forall|k: int| 0 <= k < order@.len() ==> (#[trigger] order@[k]) < self@.len(),
                decreases ids.len() - i,
            {
                let ghost prefix = names.subrange(0, i + 1);
                assert(prefix.drop_last() == names.subrange(0, i as int));
                assert(prefix.last() == ids@[i as int]@);
                match self.find_pending(ids[i].as_str()) {
                    Some(idx) => {
                        let ghost before = positions(order@);
                        order.push(idx);
                        assert(positions(order@) =~= before.push(idx as int));
                    },
                    None => {},
                }
                i += 1;
            }
            assert(names.subrange(0, i as int) == names);
            order
        };
        let total = order.len();
        Batch { order, next: 0, stats: OperationStats { total, processed: 0, skipped: 0, errors: 0 } }
    }

    /// The step that the change at position `idx` calls for.
    pub fn plan(&self, lib: &Library, idx: usize) -> (step: Step)
        requires
            idx < self@.len(),
        ensures
            step@ == step_of(self@[idx as int], lib@.files),
    {
        let c = &self.changes[idx];
        assert(self@[idx as int] == c@);
        match c.kind {
            ChangeKind::Rename => {
                let from = match &c.from_path {
                    Some(p) => Some(p.clone()),
                    None => match lib.find_id(c.file_id.as_str()) {
                        Some(i) => {
                            proof {
                                lemma_with_id(lib@.files, c@.file_id);
                            }
                            assert(lib@.files[i as int] == lib.files@[i as int]@);
                            Some(lib.files[i].path.clone())
                        },
                        None => None,
                    },
                };
                assert(opt_view(from) == rename_source(c@, lib@.files));
                match from {
                    None => Step::Reject { message: copy_string("Unknown file") },
                    Some(from) => match &c.to_path {
                        None => Step::Reject { message: copy_string("Missing target path") },
                        Some(to) => match crate::paths::parent(to.as_str()) {
                            None => Step::Reject { message: copy_string("Invalid target path") },
                            Some(dir) => Step::MoveFile { from, to: to.clone(), dir },
                        },
                    },
                }
            },
            ChangeKind::Delete => match &c.from_path {
                None => Step::Reject { message: copy_string("Missing file path") },
                Some(path) => Step::RemoveFile { path: path.clone() },
            },
            ChangeKind::MetadataEdit => match &c.from_path {
                None => Step::Reject { message: copy_string("Missing EPUB path") },
                Some(path) => match &c.payload {
                    None => Step::Reject { message: copy_string("Missing changes") },
                    Some(payload) => Step::RewriteMetadata {
                        path: path.clone(),
                        payload: payload.clone(),
                    },
                },
            },
            ChangeKind::Unsupported => Step::Reject {
                message: copy_string("Unsupported change type"),
            },
        }
    }

    /// The notification that goes out before the current change of `batch`
    /// is worked on. It names the change and the path it starts from.
    pub fn announce(&self, batch: &Batch) -> (event: Option<OperationProgress>)
        requires
            batch.wf(self@.len()),
        ensures
            match event {
                None => batch.next >= batch.order@.len(),
                Some(e) => batch.next < batch.order@.len() && e@ == (OperationProgressView {
                    item_id: self@[batch.order@[batch.next as int] as int].id,
                    status: ProgressStatus::Processing,
                    message: Some(
                        match self@[batch.order@[batch.next as int] as int].from_path {
                            Some(p) => p,
                            None => Seq::<char>::empty(),
                        },
                    ),
                    current: batch.next + 1,
                    total: batch.stats.total as int,
                }),
            },
    {
        match batch.current() {
            None => None,
            Some(idx) => {
                let c = &self.changes[idx];
                assert(self@[idx as int] == c@);
                let message = match &c.from_path {
                    Some(p) => p.clone(),
                    None => String::new(),
                };
                Some(
                    OperationProgress {
                        item_id: c.id.clone(),
                        status: ProgressStatus::Processing,
                        message: Some(message),
                        current: batch.next + 1,
                        total: batch.stats.total,
                    },
                )
            },
        }
    }
}

/// The summary after one more change has ended with `failure`.
pub open spec fn tallied(stats: OperationStats, failure: Option<Seq<char>>) -> OperationStats {
    match failure {
        None => OperationStats { processed: (stats.processed + 1) as usize, ..stats },
        Some(_) => OperationStats { errors: (stats.errors + 1) as usize, ..stats },
    }
}

/// The notification that goes out after a change has ended with `failure`.
pub open spec fn closing_event(
    c: PendingChangeView,
    failure: Option<Seq<char>>,
    current: int,
    total: int,
) -> OperationProgressView {
    OperationProgressView {
        item_id: c.id,
        status: match failure {
            None => ProgressStatus::Done,
            Some(_) => ProgressStatus::Error,
        },
        message: failure,
        current,
        total,
    }
}

impl Library {
    /// Brings the record of the changed file in line with a settled change.
    fn follow_change(&mut self, c: &PendingChange, step: &Step, failed: bool, now: i64)
        requires
            step@ == step_of(c@, old(self)@.files),
        ensures
            forall|outcome: OutcomeView|
                (failure_of(c@, old(self)@.files, outcome) is Some) == failed ==> final(self)@.files
                    == files_after(c@, old(self)@.files, outcome, now),
            final(self)@.items == old(self)@.items,
            final(self)@.issues == old(self)@.issues,
    {
        proof {
            lemma_with_id(self@.files, c@.file_id);
        }
        match self.find_id(c.file_id.as_str()) {
            None => {},
            Some(i) => {
                assert(self@.files[i as int] == self.files@[i as int]@);
                match step {
                    Step::MoveFile { from, to, dir } => {
                        if !failed {
                            let mut rec = self.files[i].duplicate();
                            rec.path = to.clone();
                            rec.filename = crate::scanner::name_for(to.as_str());
                            rec.extension = match crate::paths::extension(to.as_str()) {
                                Some(e) => e,
                                None => String::new(),
                            };
                            rec.updated_at = now;
                            self.files.set(i, rec);
                            assert(file_views(self.files@) =~= old(self)@.files.update(
                                i as int,
                                renamed(old(self)@.files[i as int], to@, now),
                            ));
                        }
                    },
                    Step::RemoveFile { path } => {
                        let mut rec = self.files[i].duplicate();
                        if !failed {
                            rec.status = FileStatus::Inactive;
                            rec.updated_at = now;
                        } else if rec.is_live() {
                            rec.status = FileStatus::Active;
                            rec.updated_at = now;
                        }
                        self.files.set(i, rec);
                        assert(file_views(self.files@) =~= old(self)@.files.update(
                            i as int,
                            if failed {
                                restored(old(self)@.files[i as int], now)
                            } else {
                                retired(old(self)@.files[i as int], now)
                            },
                        ));
                    },
                    _ => {},
                }
            },
        }
    }

    /// Resolves every open duplicate issue that points at `file_id`.
    fn resolve_duplicates(&mut self, file_id: &str, now: i64)
        ensures
            final(self)@.files == old(self)@.files,
            final(self)@.items == old(self)@.items,
            final(self)@.issues == Seq::new(
                old(self)@.issues.len(),
                |k: int|
                    {
                        let x = old(self)@.issues[k];
                        if x.kind == IssueKind::Duplicate && x.file_id == Some(file_id@)
                            && x.resolved_at is None {
                            IssueView { resolved_at: Some(now), ..x }
                        } else {
                            x
                        }
                    },
            ),
    {
        let ghost issues0 = self@.issues;
        let mut k: usize = 0;
        while k < self.issues.len()
            invariant
                k <= self.issues.len(),
                self.issues.len() == issues0.len(),
                self@.files == old(self)@.files,
                self@.items == old(self)@.items,
                forall|j: int| k <= j < issues0.len() ==> #[trigger] self@.issues[j] == issues0[j],
                forall|j: int|
                    0 <= j < k ==> #[trigger] self@.issues[j] == {
                        let x = issues0[j];
                        if x.kind == IssueKind::Duplicate && x.file_id == Some(file_id@)
                            && x.resolved_at is None {
                            IssueView { resolved_at: Some(now), ..x }
                        } else {
                            x
                        }
                    },
            decreases self.issues.len() - k,
        {
            let x = &self.issues[k];
            assert(self@.issues[k as int] == x@);
            let about = match &x.file_id {
                Some(f) => crate::text::same_text(f.as_str(), file_id),
                None => false,
            };
            let dup = match x.kind {
                IssueKind::Duplicate => true,
                _ => false,
            };
            if dup && about && x.resolved_at.is_none() {
                let done = crate::records::Issue {
                    item_id: x.item_id.clone(),
                    file_id: crate::records::copy_opt(&x.file_id),
                    kind: x.kind,
                    message: x.message.clone(),
                    created_at: x.created_at,
                    resolved_at: Some(now),
                };
                let ghost mid = self@.issues;
                self.issues.set(k, done);
                assert(self@.issues =~= mid.update(
                    k as int,
                    IssueView { resolved_at: Some(now), ..issues0[k as int] },
                ));
            }
            k += 1;
        }
        assert(self@.issues =~= Seq::new(
            issues0.len(),
            |k: int|
                {
                    let x = issues0[k];
                    if x.kind == IssueKind::Duplicate && x.file_id == Some(file_id@)
                        && x.resolved_at is None {
                        IssueView { resolved_at: Some(now), ..x }
                    } else {
                        x
                    }
                },
        ));
    }
}

impl ChangeQueue {
    /// Settles the current change of `batch` with the outcome of its step.
    ///
    /// * Where the batch is exhausted nothing happens.
    /// * A change that is no longer pending is passed over and counted as
    ///   skipped: a status, once `applied` or `error`, is never rewritten.
    /// * Otherwise the change becomes `applied`, with the time of
    ///   application and without error, or `error`, with its message. A
    ///   rename that was carried out updates the path, file name and
    ///   extension on record. A removal that was carried out, or found
    ///   nothing to remove, retires the record and resolves the open
    ///   duplicate issues that point at it. A removal that failed for any
    ///   other reason makes the record active again.
    ///
    /// No other change, record or issue is touched. The notification that
    /// goes out afterwards is returned.
    pub fn conclude(
        &mut self,
        lib: &mut Library,
        batch: &mut Batch,
        outcome: Outcome,
        now: i64,
    ) -> (event: Option<OperationProgress>)
        requires
            old(batch).wf(old(self)@.len()),
        ensures
            final(batch).wf(final(self)@.len()),
            final(batch).order@ == old(batch).order@,
            final(batch).stats.total == old(batch).stats.total,
            old(batch).next >= old(batch).order@.len() ==> {
                &&& event is None
                &&& final(self)@ == old(self)@
                &&& final(lib)@ == old(lib)@
                &&& final(batch).next == old(batch).next
                &&& final(batch).stats == old(batch).stats
            },
            old(batch).next < old(batch).order@.len() ==> {
                let idx = old(batch).order@[old(batch).next as int] as int;
                let c = old(self)@[idx];
                let failure = failure_of(c, old(lib)@.files, outcome@);
                &&& final(batch).next == old(batch).next + 1
                &&& event is Some
                &&& if c.status == ChangeStatus::Pending {
                    &&& final(self)@ == old(self)@.update(idx, settled_change(c, failure, now))
                    &&& final(lib)@ == library_after(old(lib)@, c, outcome@, now)
                    &&& final(batch).stats == tallied(old(batch).stats, failure)
                    &&& event->0@ == closing_event(
                        c,
                        failure,
                        old(batch).next + 1,
                        old(batch).stats.total as int,
                    )
                } else {
                    &&& final(self)@ == old(self)@
                    &&& final(lib)@ == old(lib)@
                    &&& final(batch).stats == (OperationStats {
                        skipped: (old(batch).stats.skipped + 1) as usize,
                        ..old(batch).stats
                    })
                    &&& event->0@ == (OperationProgressView {
                        item_id: c.id,
                        status: ProgressStatus::Skipped,
                        message: None,
                        current: old(batch).next + 1,
                        total: old(batch).stats.total as int,
                    })
                }
            },
    {
        let idx = match batch.current() {
            None => {
                return None;
            },
            Some(idx) => idx,
        };
        let current = batch.next + 1;
        let total = batch.stats.total;
        batch.next = current;
        assert(self@[idx as int] == self.changes@[idx as int]@);
        if !self.changes[idx].is_pending() {
            batch.stats.skipped += 1;
            return Some(
                OperationProgress {
                    item_id: self.changes[idx].id.clone(),
                    status: ProgressStatus::Skipped,
                    message: None,
                    current,
                    total,
                },
            );
        }
        let step = self.plan(lib, idx);
        let mut settled = self.changes[idx].duplicate();
        let failure: Option<String> = match &step {
            Step::Reject { message } => Some(message.clone()),
            Step::RemoveFile { path } => match &outcome {
                Outcome::Done => None,
                Outcome::Failed { not_found, message } => if *not_found {
                    None
                } else {
                    let mut text = copy_string("Could not delete file ");
                    crate::text::append(&mut text, path.as_str());
                    crate::text::append(&mut text, ": ");
                    crate::text::append(&mut text, message.as_str());
                    Some(text)
                },
            },
            _ => match &outcome {
                Outcome::Done => None,
                Outcome::Failed { not_found, message } => Some(message.clone()),
            },
        };
        assert(opt_view(failure) == failure_of(settled@, lib@.files, outcome@));
        let failed = failure.is_some();
        let removed = match &step {
            Step::RemoveFile { path } => !failed,
            _ => false,
        };
        lib.follow_change(&settled, &step, failed, now);
        if removed {
            lib.resolve_duplicates(settled.file_id.as_str(), now);
        }
        assert(lib@.issues =~= issues_after(
            old(lib)@.issues,
            settled@,
            old(lib)@.files,
            outcome@,
            now,
        ));
        let event = OperationProgress {
            item_id: settled.id.clone(),
            status: if failed {
                ProgressStatus::Error
            } else {
                ProgressStatus::Done
            },
            message: crate::records::copy_opt(&failure),
            current,
            total,
        };
        match failure {
            None => {
                settled.status = ChangeStatus::Applied;
                settled.applied_at = Some(now);
                settled.error = None;
                batch.stats.processed += 1;
            },
            Some(m) => {
                settled.status = ChangeStatus::Error;
                settled.error = Some(m);
                batch.stats.errors += 1;
            },
        }
        self.changes.set(idx, settled);
        assert(self@ =~= old(self)@.update(
            idx as int,
            settled_change(
                old(self)@[idx as int],
                failure_of(old(self)@[idx as int], old(lib)@.files, outcome@),
                now,
            ),
        ));
        Some(event)
    }
}

} // verus!
