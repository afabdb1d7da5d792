//! Carrying out an organize plan: the bookkeeping.
//!
//! Copying and moving files happens outside. For each entry of a plan,
//! [`OrganizeRun::record`] takes what happened on disk and brings the record
//! store, the log and the summary in line. A failure of one entry is logged
//! and counted; the next entry is handled as if nothing had happened.

use vstd::prelude::*;
use crate::applier::{OperationProgress, OperationProgressView, OperationStats, ProgressStatus};
use crate::changes::{ChangeKind, ChangeStatus, PendingChange, PendingChangeView};
use crate::paths::{extension_of, parent_of};
use crate::planner::{plan_views, OrganizeEntry, OrganizeEntryView, OrganizePlan, PlanAction};
use crate::records::{
    file_views, lemma_with_id, opt_view, with_id, FileRecordView, FileStatus, Library,
    LibraryView,
};
use crate::scanner::recorded_name;
use crate::text::{append, copy_string, lowercase};

verus! {

/// What happened on disk for one entry of a plan.
#[derive(Debug)]
pub enum EntryOutcome {
    /// The source is gone and the target exists: the file was moved before.
    AlreadyMoved,
    /// The source is gone and the target does not exist.
    SourceMissing,
    /// The directory of the target could not be created.
    DirectoryFailed { message: String },
    /// The file could not be copied to the target.
    CopyFailed { message: String },
    /// The file was copied, but the original could not be removed.
    RemoveFailed { message: String },
    /// The file sits at the target.
    Done,
}

/// Mathematical value of an [`EntryOutcome`].
pub enum EntryOutcomeView {
    AlreadyMoved,
    SourceMissing,
    DirectoryFailed { message: Seq<char> },
    CopyFailed { message: Seq<char> },
    RemoveFailed { message: Seq<char> },
    Done,
}

impl View for EntryOutcome {
    type V = EntryOutcomeView;

    open spec fn view(&self) -> EntryOutcomeView {
        match self {
            EntryOutcome::AlreadyMoved => EntryOutcomeView::AlreadyMoved,
            EntryOutcome::SourceMissing => EntryOutcomeView::SourceMissing,
            EntryOutcome::DirectoryFailed { message } => EntryOutcomeView::DirectoryFailed {
                message: message@,
            },
            EntryOutcome::CopyFailed { message } => EntryOutcomeView::CopyFailed {
                message: message@,
            },
            EntryOutcome::RemoveFailed { message } => EntryOutcomeView::RemoveFailed {
                message: message@,
            },
            EntryOutcome::Done => EntryOutcomeView::Done,
        }
    }
}

/// Why an organize operation cannot go on.
#[derive(Clone, Copy, Debug, PartialEq, Eq, Structural)]
pub enum OrganizeError {
    /// The target of an entry has no directory to create.
    InvalidTarget,
    /// A file to copy is not on record.
    UnknownFile,
    /// The identifier offered for the record of a copy is already taken.
    FileIdTaken,
}

/// One line of the organizer's log.
#[derive(Debug)]
pub struct OrganizerLogEntry {
    pub action: PlanAction,
    pub from: String,
    pub to: String,
    pub timestamp: i64,
    pub error: Option<String>,
}

/// Mathematical value of an [`OrganizerLogEntry`].
pub struct OrganizerLogEntryView {
    pub action: PlanAction,
    pub from: Seq<char>,
    pub to: Seq<char>,
    pub timestamp: i64,
    pub error: Option<Seq<char>>,
}

impl View for OrganizerLogEntry {
    type V = OrganizerLogEntryView;

    open spec fn view(&self) -> OrganizerLogEntryView {
        OrganizerLogEntryView {
            action: self.action,
            from: self.from@,
            to: self.to@,
            timestamp: self.timestamp,
            error: opt_view(self.error),
        }
    }
}

/// Views of the lines of a log.
pub open spec fn log_views(v: Seq<OrganizerLogEntry>) -> Seq<OrganizerLogEntryView> {
    Seq::new(v.len(), |i: int| v[i]@)
}

/// The log of one organize operation.
#[derive(Debug)]
pub struct OrganizerLog {
    pub id: String,
    pub created_at: i64,
    pub processed: usize,
    pub errors: usize,
    pub entries: Vec<OrganizerLogEntry>,
}

/// The extension stored for an organized file: lower case, with its dot, or
/// empty where the path has none.
pub open spec fn stored_extension(path: Seq<char>) -> Seq<char> {
    match extension_of(path) {
        Some(e) => seq!['.'] + lowercase(e),
        None => Seq::<char>::empty(),
    }
}

/// A record after its file was found, or put, at `target`. A retired
/// record stays as it is.
pub open spec fn placed(r: FileRecordView, target: Seq<char>, now: i64) -> FileRecordView {
    if r.status == FileStatus::Inactive {
        r
    } else {
        FileRecordView {
            path: target,
            filename: recorded_name(target),
            extension: stored_extension(target),
            updated_at: now,
            status: FileStatus::Active,
            ..r
        }
    }
}

/// A record after its file was found gone. A retired record stays as it
/// is.
pub open spec fn lost(r: FileRecordView, now: i64) -> FileRecordView {
    if r.status == FileStatus::Inactive {
        r
    } else {
        FileRecordView { status: FileStatus::Missing, updated_at: now, ..r }
    }
}

/// The record of a copy of the file of `r` at `target`.
pub open spec fn copied(
    r: FileRecordView,
    id: Seq<char>,
    target: Seq<char>,
    now: i64,
) -> FileRecordView {
    FileRecordView {
        id,
        path: target,
        filename: recorded_name(target),
        extension: stored_extension(target),
        created_at: now,
        updated_at: now,
        status: FileStatus::Active,
        ..r
    }
}

/// Whether an outcome was reached without touching the target's directory.
pub open spec fn source_was_gone(outcome: EntryOutcomeView) -> bool {
    outcome is AlreadyMoved || outcome is SourceMissing
}

/// Why an entry stops the operation, if it does.
pub open spec fn stops(
    entry: OrganizeEntryView,
    files: Seq<FileRecordView>,
    outcome: EntryOutcomeView,
    new_id: Seq<char>,
) -> Option<OrganizeError> {
    if entry.action == PlanAction::Skip || source_was_gone(outcome) {
        None
    } else if parent_of(entry.target_path) is None {
        Some(OrganizeError::InvalidTarget)
    } else if outcome is Done && entry.action == PlanAction::Copy {
        if with_id(files, entry.file_id) is None {
            Some(OrganizeError::UnknownFile)
        } else if with_id(files, new_id) is Some {
            Some(OrganizeError::FileIdTaken)
        } else {
            None
        }
    } else {
        None
    }
}

/// The file table after an entry has been recorded.
pub open spec fn files_after_entry(
    entry: OrganizeEntryView,
    files: Seq<FileRecordView>,
    outcome: EntryOutcomeView,
    new_id: Seq<char>,
    now: i64,
) -> Seq<FileRecordView> {
    if entry.action == PlanAction::Skip {
        files
    } else {
        match with_id(files, entry.file_id) {
            None => files,
            Some(i) => match outcome {
                EntryOutcomeView::AlreadyMoved => files.update(
                    i,
                    placed(files[i], entry.target_path, now),
                ),
                EntryOutcomeView::SourceMissing => files.update(i, lost(files[i], now)),
                EntryOutcomeView::Done => if entry.action == PlanAction::Copy {
                    files.push(copied(files[i], new_id, entry.target_path, now))
                } else {
                    files.update(i, placed(files[i], entry.target_path, now))
                },
                _ => files,
            },
        }
    }
}

/// The error that goes into the log for an outcome, if it is a failure.
pub open spec fn logged_error(outcome: EntryOutcomeView) -> Option<Seq<char>> {
    match outcome {
        EntryOutcomeView::AlreadyMoved => None,
        EntryOutcomeView::Done => None,
        EntryOutcomeView::SourceMissing => Some("Source file missing"@),
        EntryOutcomeView::DirectoryFailed { message } => Some(
            "Failed to create target dir: "@ + message,
        ),
        EntryOutcomeView::CopyFailed { message } => Some("Failed to copy: "@ + message),
        EntryOutcomeView::RemoveFailed { message } => Some(
            "Failed to remove original: "@ + message,
        ),
    }
}

/// The message of the notification for an outcome.
pub open spec fn notice(entry: OrganizeEntryView, outcome: EntryOutcomeView) -> Seq<char> {
    match outcome {
        EntryOutcomeView::AlreadyMoved => "Already moved"@,
        EntryOutcomeView::Done => entry.target_path,
        EntryOutcomeView::SourceMissing => "Source file missing"@,
        EntryOutcomeView::DirectoryFailed { message } => "Failed to create target dir"@,
        EntryOutcomeView::CopyFailed { message } => "Failed to copy"@,
        EntryOutcomeView::RemoveFailed { message } => "Failed to remove original"@,
    }
}

/// The line that goes into the log for an entry.
pub open spec fn log_line(
    entry: OrganizeEntryView,
    outcome: EntryOutcomeView,
    now: i64,
) -> OrganizerLogEntryView {
    OrganizerLogEntryView {
        action: entry.action,
        from: entry.source_path,
        to: entry.target_path,
        timestamp: now,
        error: logged_error(outcome),
    }
}

/// Number of entries among the first `n` that ask for a copy or a move.
pub open spec fn work_count(entries: Seq<OrganizeEntryView>, n: int) -> nat
    decreases n,
{
    if n <= 0 {
        0
    } else {
        work_count(entries, n - 1) + if entries[n - 1].action == PlanAction::Skip {
            0nat
        } else {
            1nat
        }
    }
}

/// There is no more work among the first `n` entries than entries.
pub proof fn lemma_work_count_bound(entries: Seq<OrganizeEntryView>, n: int)
    requires
        0 <= n,
    ensures
        work_count(entries, n) <= n,
    decreases n,
{
    if n > 0 {
        lemma_work_count_bound(entries, n - 1);
    }
}

/// The state of one organize operation.
#[derive(Debug)]
pub struct OrganizeRun {
    /// How many entries of the plan have been recorded.
    pub position: usize,
    /// The log so far: one line per entry that was not a skip.
    pub lines: Vec<OrganizerLogEntry>,
    /// The summary so far.
    pub stats: OperationStats,
}

impl OrganizeRun {
    /// The summary accounts for every recorded entry of a plan of `len`
    /// entries, and the log holds a line for each one that was not a skip.
    pub open spec fn wf(&self, len: nat) -> bool {
        &&& self.position <= len
        &&& self.stats.processed + self.stats.skipped + self.stats.errors == self.position
        &&& self.lines@.len() == self.stats.processed + self.stats.errors
    }

    /// Starts carrying out `plan`. The total of the summary is the number
    /// of entries that ask for a copy or a move.
    pub fn begin(plan: &OrganizePlan) -> (run: OrganizeRun)
        ensures
            run.wf(plan.entries@.len()),
            run.position == 0,
            run.lines@.len() == 0,
            run.stats == (OperationStats {
                total: work_count(plan_views(plan.entries@), plan.entries@.len() as int) as usize,
                processed: 0,
                skipped: 0,
                errors: 0,
            }),
    {
        let mut total: usize = 0;
        let mut i: usize = 0;
        while i < plan.entries.len()
            invariant
                i <= plan.entries.len(),
                total == work_count(plan_views(plan.entries@), i as int),
                total <= i,
            decreases plan.entries.len() - i,
        {
            assert(plan_views(plan.entries@)[i as int] == plan.entries@[i as int]@);
            match plan.entries[i].action {
                PlanAction::Skip => {},
                _ => {
                    total += 1;
                },
            }
            i += 1;
        }
        OrganizeRun {
            position: 0,
            lines: Vec::new(),
            stats: OperationStats { total, processed: 0, skipped: 0, errors: 0 },
        }
    }

    /// Whether every entry of `plan` has been recorded.
    pub fn is_done(&self, plan: &OrganizePlan) -> (b: bool)
        ensures
            b == (self.position >= plan.entries@.len()),
    {
        self.position >= plan.entries.len()
    }

    /// Closes the operation: the log under the identifier given.
    pub fn finish(self, id: String, now: i64) -> (log: OrganizerLog)
        ensures
            log.id == id,
            log.created_at == now,
            log.processed == self.stats.processed,
            log.errors == self.stats.errors,
            log.entries == self.lines,
    {
        OrganizerLog {
            id,
            created_at: now,
            processed: self.stats.processed,
            errors: self.stats.errors,
            entries: self.lines,
        }
    }
}

/// The extension stored for an organized file.
pub fn extension_to_store(path: &str) -> (ext: String)
    ensures
        ext@ == stored_extension(path@),
{
    match crate::paths::extension(path) {
        Some(e) => {
            let low = crate::text::to_lowercase(e.as_str());
            let mut out = String::new();
            out.push('.');
            assert(out@ =~= seq!['.']);
            append(&mut out, low.as_str());
            out
        },
        None => String::new(),
    }
}

impl Library {
    /// Points the first record with identifier `file_id` at `target` and
    /// makes it active. Without such a record nothing happens.
    pub fn place_file(&mut self, file_id: &str, target: &str, now: i64)
        ensures
            final(self)@ == (LibraryView {
                files: match with_id(old(self)@.files, file_id@) {
                    Some(i) => old(self)@.files.update(
                        i,
                        placed(old(self)@.files[i], target@, now),
                    ),
                    None => old(self)@.files,
                },
                ..old(self)@
            }),
    {
        proof {
            lemma_with_id(self@.files, file_id@);
        }
        match self.find_id(file_id) {
            None => {},
            Some(i) => {
                assert(self@.files[i as int] == self.files@[i as int]@);
                let mut rec = self.files[i].duplicate();
                if rec.is_live() {
                    rec.path = copy_string(target);
                    rec.filename = crate::scanner::name_for(target);
                    rec.extension = extension_to_store(target);
                    rec.updated_at = now;
                    rec.status = FileStatus::Active;
                }
                self.files.set(i, rec);
                assert(file_views(self.files@) =~= old(self)@.files.update(
                    i as int,
                    placed(old(self)@.files[i as int], target@, now),
                ));
            },
        }
    }

    /// Marks the first record with identifier `file_id` missing. Without
    /// such a record nothing happens.
    pub fn lose_file(&mut self, file_id: &str, now: i64)
        ensures
            final(self)@ == (LibraryView {
                files: match with_id(old(self)@.files, file_id@) {
                    Some(i) => old(self)@.files.update(i, lost(old(self)@.files[i], now)),
                    None => old(self)@.files,
                },
                ..old(self)@
            }),
    {
        proof {
            lemma_with_id(self@.files, file_id@);
        }
        match self.find_id(file_id) {
            None => {},
            Some(i) => {
                assert(self@.files[i as int] == self.files@[i as int]@);
                let mut rec = self.files[i].duplicate();
                if rec.is_live() {
                    rec.updated_at = now;
                    rec.status = FileStatus::Missing;
                }
                self.files.set(i, rec);
                assert(file_views(self.files@) =~= old(self)@.files.update(
                    i as int,
                    lost(old(self)@.files[i as int], now),
                ));
            },
        }
    }
}

impl OrganizeRun {
    /// The notification that goes out before the current entry of `plan` is
    /// worked on. Skipped entries are not announced.
    pub fn announce(&self, plan: &OrganizePlan) -> (event: Option<OperationProgress>)
        requires
            self.wf(plan.entries@.len()),
        ensures
            match event {
                None => self.position >= plan.entries@.len() || plan.entries@[self.position as int]@.action
                    == PlanAction::Skip,
                Some(e) => self.position < plan.entries@.len() && e@ == (OperationProgressView {
                    item_id: plan.entries@[self.position as int]@.file_id,
                    status: ProgressStatus::Processing,
                    message: Some(plan.entries@[self.position as int]@.source_path),
                    current: self.lines@.len() as int + 1,
                    total: self.stats.total as int,
                }),
            },
    {
        if self.position >= plan.entries.len() {
            return None;
        }
        let entry = &plan.entries[self.position];
        match entry.action {
            PlanAction::Skip => None,
            _ => Some(
                OperationProgress {
                    item_id: entry.file_id.clone(),
                    status: ProgressStatus::Processing,
                    message: Some(entry.source_path.clone()),
                    current: self.lines.len() + 1,
                    total: self.stats.total,
                },
            ),
        }
    }

    /// Records what happened on disk for the current entry of `plan`.
    ///
    /// * A skip is counted as skipped; nothing else happens and nothing is
    ///   notified.
    /// * Source gone, target there: the record is pointed at the target and
    ///   made active; the entry counts as processed.
    /// * Source gone, target not there: the record is marked missing; the
    ///   entry counts as an error.
    /// * Directory, copy or removal failed: the entry counts as an error and
    ///   no record changes.
    /// * Done: a move points the record at the target; a copy adds a record
    ///   for the target under `new_id`, with the content attributes and the
    ///   item of the original. The entry counts as processed.
    ///
    /// Every entry but a skip gets a line in the log. The operation stops,
    /// with nothing changed, where the target has no directory, where a
    /// file to copy is not on record, or where `new_id` is taken.
    pub fn record(
        &mut self,
        lib: &mut Library,
        plan: &OrganizePlan,
        outcome: EntryOutcome,
        new_id: String,
        now: i64,
    ) -> (r: Result<Option<OperationProgress>, OrganizeError>)
        requires
            old(self).wf(plan.entries@.len()),
        ensures
            final(self).wf(plan.entries@.len()),
            final(self).stats.total == old(self).stats.total,
            old(self).position >= plan.entries@.len() ==> {
                &&& r == Ok::<Option<OperationProgress>, OrganizeError>(None)
                &&& *final(self) == *old(self)
                &&& final(lib)@ == old(lib)@
            },
            old(self).position < plan.entries@.len() ==> {
                let entry = plan.entries@[old(self).position as int]@;
                match stops(entry, old(lib)@.files, outcome@, new_id@) {
                    Some(e) => {
                        &&& r == Err::<Option<OperationProgress>, OrganizeError>(e)
                        &&& *final(self) == *old(self)
                        &&& final(lib)@ == old(lib)@
                    },
                    None => {
                        &&& r is Ok
                        &&& final(self).position == old(self).position + 1
                        &&& final(lib)@ == (LibraryView {
                            files: files_after_entry(
                                entry,
                                old(lib)@.files,
                                outcome@,
                                new_id@,
                                now,
                            ),
                            ..old(lib)@
                        })
                        &&& if entry.action == PlanAction::Skip {
                            &&& r->Ok_0 is None
                            &&& final(self).lines@ == old(self).lines@
                            &&& final(self).stats == (OperationStats {
                                skipped: (old(self).stats.skipped + 1) as usize,
                                ..old(self).stats
                            })
                        } else {
                            &&& log_views(final(self).lines@) == log_views(old(self).lines@).push(
                                log_line(entry, outcome@, now),
                            )
                            &&& final(self).stats == if logged_error(outcome@) is None {
                                OperationStats {
                                    processed: (old(self).stats.processed + 1) as usize,
                                    ..old(self).stats
                                }
                            } else {
                                OperationStats {
                                    errors: (old(self).stats.errors + 1) as usize,
                                    ..old(self).stats
                                }
                            }
                            &&& r->Ok_0 is Some
                            &&& r->Ok_0->0@ == (OperationProgressView {
                                item_id: entry.file_id,
                                status: if logged_error(outcome@) is None {
                                    ProgressStatus::Done
                                } else {
                                    ProgressStatus::Error
                                },
                                message: Some(notice(entry, outcome@)),
                                current: old(self).lines@.len() as int + 1,
                                total: old(self).stats.total as int,
                            })
                        }
                    },
                }
            },
    {
        if self.position >= plan.entries.len() {
            return Ok(None);
        }
        let entry = &plan.entries[self.position];
        let target = entry.target_path.as_str();
        let skip = match entry.action {
            PlanAction::Skip => true,
            _ => false,
        };
        if skip {
            self.position += 1;
            self.stats.skipped += 1;
            return Ok(None);
        }
        let copying = match entry.action {
            PlanAction::Copy => true,
            _ => false,
        };
        let gone = match &outcome {
            EntryOutcome::AlreadyMoved => true,
            EntryOutcome::SourceMissing => true,
            _ => false,
        };
        if !gone && crate::paths::parent(target).is_none() {
            return Err(OrganizeError::InvalidTarget);
        }
        proof {
            lemma_with_id(lib@.files, entry@.file_id);
        }
        let (error, note): (Option<String>, String) = match &outcome {
            EntryOutcome::AlreadyMoved => {
                lib.place_file(entry.file_id.as_str(), target, now);
                (None, copy_string("Already moved"))
            },
            EntryOutcome::SourceMissing => {
                lib.lose_file(entry.file_id.as_str(), now);
                (Some(copy_string("Source file missing")), copy_string("Source file missing"))
            },
            EntryOutcome::DirectoryFailed { message } => {
                let mut text = copy_string("Failed to create target dir: ");
                append(&mut text, message.as_str());
                (Some(text), copy_string("Failed to create target dir"))
            },
            EntryOutcome::CopyFailed { message } => {
                let mut text = copy_string("Failed to copy: ");
                append(&mut text, message.as_str());
                (Some(text), copy_string("Failed to copy"))
            },
            EntryOutcome::RemoveFailed { message } => {
                let mut text = copy_string("Failed to remove original: ");
                append(&mut text, message.as_str());
                (Some(text), copy_string("Failed to remove original"))
            },
            EntryOutcome::Done => {
                if copying {
                    let i = match lib.find_id(entry.file_id.as_str()) {
                        None => {
                            return Err(OrganizeError::UnknownFile);
                        },
                        Some(i) => i,
                    };
                    if lib.find_id(new_id.as_str()).is_some() {
                        return Err(OrganizeError::FileIdTaken);
                    }
                    assert(lib@.files[i as int] == lib.files@[i as int]@);
                    let mut rec = lib.files[i].duplicate();
                    rec.id = new_id;
                    rec.path = copy_string(target);
                    rec.filename = crate::scanner::name_for(target);
                    rec.extension = extension_to_store(target);
                    rec.created_at = now;
                    rec.updated_at = now;
                    rec.status = FileStatus::Active;
                    lib.files.push(rec);
                    assert(file_views(lib.files@) =~= old(lib)@.files.push(
                        copied(old(lib)@.files[i as int], new_id@, target@, now),
                    ));
                } else {
                    lib.place_file(entry.file_id.as_str(), target, now);
                }
                (None, copy_string(target))
            },
        };
        assert(opt_view(error) == logged_error(outcome@));
        assert(note@ == notice(entry@, outcome@));
        let failed = error.is_some();
        let current = self.lines.len() + 1;
        let ghost before = log_views(self.lines@);
        self.lines.push(
            OrganizerLogEntry {
                action: entry.action,
                from: entry.source_path.clone(),
                to: entry.target_path.clone(),
                timestamp: now,
                error,
            },
        );
        assert(log_views(self.lines@) =~= before.push(log_line(entry@, outcome@, now)));
        self.position += 1;
        if failed {
            self.stats.errors += 1;
        } else {
            self.stats.processed += 1;
        }
        Ok(
            Some(
                OperationProgress {
                    item_id: entry.file_id.clone(),
                    status: if failed {
                        ProgressStatus::Error
                    } else {
                        ProgressStatus::Done
                    },
                    message: Some(note),
                    current,
                    total: self.stats.total,
                },
            ),
        )
    }
}

/// Recording an entry removes no record, changes the identifier of none,
/// and leaves every retired record as it is: `inactive` is final. Only the
/// record that the entry names can change, and only a copy adds one.
pub proof fn law_recording_keeps_history(
    entry: OrganizeEntryView,
    files: Seq<FileRecordView>,
    outcome: EntryOutcomeView,
    new_id: Seq<char>,
    now: i64,
)
    ensures
        ({
            let after = files_after_entry(entry, files, outcome, new_id, now);
            &&& after.len() >= files.len()
            &&& after.len() > files.len() ==> outcome is Done && entry.action == PlanAction::Copy
            &&& forall|k: int|
                0 <= k < files.len() ==> {
                    &&& (#[trigger] after[k]).id == files[k].id
                    &&& files[k].id != entry.file_id ==> after[k] == files[k]
                    &&& files[k].status == FileStatus::Inactive ==> after[k] == files[k]
                }
        }),
{
    lemma_with_id(files, entry.file_id);
}

/// The rename that a plan entry stands for, if it is not a skip: from the
/// source to the target, pending, created at `now`.
pub open spec fn rename_of(entry: OrganizeEntryView, id: Seq<char>, now: i64) -> Option<
    PendingChangeView,
> {
    if entry.action == PlanAction::Skip {
        None
    } else {
        Some(
            PendingChangeView {
                id,
                file_id: entry.file_id,
                kind: ChangeKind::Rename,
                from_path: Some(entry.source_path),
                to_path: Some(entry.target_path),
                payload: None,
                status: ChangeStatus::Pending,
                created_at: now,
                applied_at: None,
                error: None,
            },
        )
    }
}

/// Turns a plan entry into the staged change that carries it out. Entries
/// that are skips stand for no change.
pub fn rename_change(entry: &OrganizeEntry, id: String, now: i64) -> (change: Option<PendingChange>)
    ensures
        match change {
            Some(c) => rename_of(entry@, id@, now) == Some(c@),
            None => rename_of(entry@, id@, now) is None,
        },
{
    match entry.action {
        PlanAction::Skip => None,
        _ => Some(
            PendingChange {
                id,
                file_id: entry.file_id.clone(),
                kind: ChangeKind::Rename,
                from_path: Some(entry.source_path.clone()),
                to_path: Some(entry.target_path.clone()),
                payload: None,
                status: ChangeStatus::Pending,
                created_at: now,
                applied_at: None,
                error: None,
            },
        ),
    }
}

} // verus!
