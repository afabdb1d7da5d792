use folio::applier::{OperationStats, ProgressStatus};
use folio::flows::generate_pending_changes_from_organize;
use folio::changes::{ChangeKind, ChangeQueue, ChangeStatus};
use folio::organizer::{rename_change, EntryOutcome, OrganizeError, OrganizeRun};
use folio::planner::{LayoutMode, OrganizeEntry, OrganizePlan, PlanAction};
use folio::records::{FileRecord, FileStatus, HashAlgo, Library};

fn record(id: &str, path: &str) -> FileRecord {
    FileRecord {
        id: id.to_string(),
        item_id: format!("item-{}", id),
        path: path.to_string(),
        filename: "old".to_string(),
        extension: ".epub".to_string(),
        size_bytes: Some(42),
        modified_at: Some(7),
        fingerprint: Some("aa".to_string()),
        hash_algo: Some(HashAlgo::Sha256),
        status: FileStatus::Active,
        created_at: 1,
        updated_at: 1,
    }
}

fn entry(id: &str, from: &str, to: &str, action: PlanAction) -> OrganizeEntry {
    OrganizeEntry {
        file_id: id.to_string(),
        source_path: from.to_string(),
        target_path: to.to_string(),
        action,
    }
}

fn plan(mode: LayoutMode, entries: Vec<OrganizeEntry>) -> OrganizePlan {
    OrganizePlan { mode, library_root: "/lib".to_string(), template: "{Title}.{ext}".to_string(), entries }
}

#[test]
fn a_move_points_the_record_at_the_target() {
    let mut lib = Library::new();
    lib.files.push(record("f1", "/in/a.EPUB"));
    let p = plan(LayoutMode::Move, vec![entry("f1", "/in/a.EPUB", "/lib/A/a.EPUB", PlanAction::Move)]);
    let mut run = OrganizeRun::begin(&p);
    assert_eq!(run.stats.total, 1);
    let announced = run.announce(&p).unwrap();
    assert_eq!(announced.status, ProgressStatus::Processing);
    assert_eq!(announced.message.as_deref(), Some("/in/a.EPUB"));
    let event = run.record(&mut lib, &p, EntryOutcome::Done, "unused".to_string(), 99).unwrap().unwrap();
    assert_eq!(event.status, ProgressStatus::Done);
    assert_eq!(event.message.as_deref(), Some("/lib/A/a.EPUB"));
    assert_eq!(event.current, 1);
    assert_eq!(event.total, 1);
    assert_eq!(lib.files.len(), 1);
    assert_eq!(lib.files[0].path, "/lib/A/a.EPUB");
    assert_eq!(lib.files[0].filename, "a.EPUB");
    assert_eq!(lib.files[0].extension, ".epub");
    assert_eq!(lib.files[0].updated_at, 99);
    assert_eq!(run.stats, OperationStats { total: 1, processed: 1, skipped: 0, errors: 0 });
    assert!(run.is_done(&p));
    let log = run.finish("log-1".to_string(), 100);
    assert_eq!(log.id, "log-1");
    assert_eq!(log.created_at, 100);
    assert_eq!(log.processed, 1);
    assert_eq!(log.errors, 0);
    assert_eq!(log.entries.len(), 1);
    assert_eq!(log.entries[0].from, "/in/a.EPUB");
    assert_eq!(log.entries[0].to, "/lib/A/a.EPUB");
    assert_eq!(log.entries[0].error, None);
    assert_eq!(log.entries[0].timestamp, 99);
}

#[test]
fn a_copy_adds_a_record_for_the_target() {
    let mut lib = Library::new();
    lib.files.push(record("f1", "/in/a.epub"));
    let p = plan(LayoutMode::Copy, vec![entry("f1", "/in/a.epub", "/lib/a.epub", PlanAction::Copy)]);
    let mut run = OrganizeRun::begin(&p);
    run.record(&mut lib, &p, EntryOutcome::Done, "f2".to_string(), 50).unwrap();
    assert_eq!(lib.files.len(), 2);
    assert_eq!(lib.files[0].path, "/in/a.epub");
    assert_eq!(lib.files[0].updated_at, 1);
    let copy = &lib.files[1];
    assert_eq!(copy.id, "f2");
    assert_eq!(copy.item_id, "item-f1");
    assert_eq!(copy.path, "/lib/a.epub");
    assert_eq!(copy.filename, "a.epub");
    assert_eq!(copy.size_bytes, Some(42));
    assert_eq!(copy.fingerprint.as_deref(), Some("aa"));
    assert_eq!(copy.modified_at, Some(7));
    assert_eq!(copy.created_at, 50);
    assert_eq!(copy.status, FileStatus::Active);
}

#[test]
fn failures_are_logged_and_do_not_stop_the_run() {
    let mut lib = Library::new();
    lib.files.push(record("f1", "/in/a.epub"));
    lib.files.push(record("f2", "/in/b.epub"));
    lib.files.push(record("f3", "/in/c.epub"));
    lib.files.push(record("f4", "/in/d.epub"));
    let p = plan(
        LayoutMode::Move,
        vec![
            entry("f1", "/in/a.epub", "/lib/a.epub", PlanAction::Move),
            entry("f0", "/lib/z.epub", "/lib/z.epub", PlanAction::Skip),
            entry("f2", "/in/b.epub", "/lib/b.epub", PlanAction::Move),
            entry("f3", "/in/c.epub", "/lib/c.epub", PlanAction::Move),
            entry("f4", "/in/d.epub", "/lib/d.epub", PlanAction::Move),
        ],
    );
    let mut run = OrganizeRun::begin(&p);
    assert_eq!(run.stats.total, 4);
    let outcomes = vec![
        EntryOutcome::SourceMissing,
        EntryOutcome::Done,
        EntryOutcome::CopyFailed { message: "disk full".to_string() },
        EntryOutcome::AlreadyMoved,
        EntryOutcome::Done,
    ];
    let mut events = vec![];
    for outcome in outcomes {
        assert!(!run.is_done(&p));
        events.push(run.record(&mut lib, &p, outcome, "new".to_string(), 10).unwrap());
    }
    assert!(run.is_done(&p));
    assert_eq!(run.stats, OperationStats { total: 4, processed: 2, skipped: 1, errors: 2 });
    assert_eq!(lib.files[0].status, FileStatus::Missing);
    assert_eq!(lib.files[0].path, "/in/a.epub");
    assert_eq!(lib.files[1].path, "/in/b.epub");
    assert_eq!(lib.files[2].path, "/lib/c.epub");
    assert_eq!(lib.files[3].path, "/lib/d.epub");
    assert!(events[1].is_none());
    let first = events[0].as_ref().unwrap();
    assert_eq!(first.status, ProgressStatus::Error);
    assert_eq!(first.message.as_deref(), Some("Source file missing"));
    let third = events[2].as_ref().unwrap();
    assert_eq!(third.status, ProgressStatus::Error);
    assert_eq!(third.message.as_deref(), Some("Failed to copy"));
    assert_eq!(third.current, 2);
    let fourth = events[3].as_ref().unwrap();
    assert_eq!(fourth.status, ProgressStatus::Done);
    assert_eq!(fourth.message.as_deref(), Some("Already moved"));
    let errors: Vec<Option<&str>> = run.lines.iter().map(|l| l.error.as_deref()).collect();
    assert_eq!(
        errors,
        vec![Some("Source file missing"), Some("Failed to copy: disk full"), None, None]
    );
}

#[test]
fn other_failures_have_their_own_messages() {
    let mut lib = Library::new();
    lib.files.push(record("f1", "/in/a.epub"));
    let p = plan(
        LayoutMode::Move,
        vec![
            entry("f1", "/in/a.epub", "/lib/a.epub", PlanAction::Move),
            entry("f1", "/in/a.epub", "/lib/a.epub", PlanAction::Move),
        ],
    );
    let mut run = OrganizeRun::begin(&p);
    run.record(&mut lib, &p, EntryOutcome::DirectoryFailed { message: "denied".to_string() }, "n".to_string(), 1)
        .unwrap();
    run.record(&mut lib, &p, EntryOutcome::RemoveFailed { message: "busy".to_string() }, "n".to_string(), 1)
        .unwrap();
    assert_eq!(run.lines[0].error.as_deref(), Some("Failed to create target dir: denied"));
    assert_eq!(run.lines[1].error.as_deref(), Some("Failed to remove original: busy"));
    assert_eq!(lib.files[0].path, "/in/a.epub");
    assert_eq!(run.stats.errors, 2);
}

#[test]
fn the_run_stops_where_it_cannot_go_on() {
    let mut lib = Library::new();
    lib.files.push(record("f1", "/in/a.epub"));
    let p = plan(
        LayoutMode::Copy,
        vec![
            entry("f1", "/in/a.epub", "/", PlanAction::Copy),
            entry("f9", "/in/b.epub", "/lib/b.epub", PlanAction::Copy),
            entry("f1", "/in/a.epub", "/lib/a.epub", PlanAction::Copy),
        ],
    );
    let mut run = OrganizeRun::begin(&p);
    let r = run.record(&mut lib, &p, EntryOutcome::Done, "n".to_string(), 1);
    assert_eq!(r.unwrap_err(), OrganizeError::InvalidTarget);
    assert_eq!(run.position, 0);
    run.position = 1;
    run.stats.skipped = 1;
    let r = run.record(&mut lib, &p, EntryOutcome::Done, "n".to_string(), 1);
    assert_eq!(r.unwrap_err(), OrganizeError::UnknownFile);
    run.position = 2;
    run.stats.skipped = 2;
    let r = run.record(&mut lib, &p, EntryOutcome::Done, "f1".to_string(), 1);
    assert_eq!(r.unwrap_err(), OrganizeError::FileIdTaken);
    assert_eq!(lib.files.len(), 1);
    assert_eq!(run.lines.len(), 0);
}

#[test]
fn a_retired_record_is_left_alone() {
    let mut lib = Library::new();
    lib.files.push(record("f1", "/in/a.epub"));
    lib.files[0].status = FileStatus::Inactive;
    let p = plan(
        LayoutMode::Move,
        vec![
            entry("f1", "/in/a.epub", "/lib/a.epub", PlanAction::Move),
            entry("f1", "/in/a.epub", "/lib/a.epub", PlanAction::Move),
        ],
    );
    let mut run = OrganizeRun::begin(&p);
    run.record(&mut lib, &p, EntryOutcome::Done, "n".to_string(), 9).unwrap();
    run.record(&mut lib, &p, EntryOutcome::SourceMissing, "n".to_string(), 9).unwrap();
    assert_eq!(lib.files[0].status, FileStatus::Inactive);
    assert_eq!(lib.files[0].path, "/in/a.epub");
    assert_eq!(lib.files[0].updated_at, 1);
}

#[test]
fn plan_entries_turn_into_renames() {
    let skip = entry("f1", "/lib/a.epub", "/lib/a.epub", PlanAction::Skip);
    assert!(rename_change(&skip, "c0".to_string(), 5).is_none());
    let mv = entry("f2", "/in/b.epub", "/lib/b.epub", PlanAction::Move);
    let c = rename_change(&mv, "c1".to_string(), 5).unwrap();
    assert_eq!(c.id, "c1");
    assert_eq!(c.file_id, "f2");
    assert_eq!(c.kind, ChangeKind::Rename);
    assert_eq!(c.from_path.as_deref(), Some("/in/b.epub"));
    assert_eq!(c.to_path.as_deref(), Some("/lib/b.epub"));
    assert_eq!(c.payload, None);
    assert_eq!(c.status, ChangeStatus::Pending);
    assert_eq!(c.created_at, 5);
}

#[test]
fn a_plan_is_staged_one_rename_per_entry_that_is_not_a_skip() {
    let p = plan(
        LayoutMode::Move,
        vec![
            entry("f1", "/in/a.epub", "/lib/a.epub", PlanAction::Move),
            entry("f2", "/lib/b.epub", "/lib/b.epub", PlanAction::Skip),
            entry("f3", "/in/c.epub", "/lib/c.epub", PlanAction::Copy),
        ],
    );
    let mut q = ChangeQueue::new();
    let stamps = generate_pending_changes_from_organize(&mut q, &p);
    assert_eq!(stamps.len(), 2);
    assert_eq!(q.changes.len(), 2);
    assert_eq!(q.changes[0].file_id, "f1");
    assert_eq!(q.changes[0].id, stamps[0].id);
    assert_eq!(q.changes[0].created_at, stamps[0].now);
    assert_eq!(q.changes[1].file_id, "f3");
    assert_eq!(q.changes[1].to_path.as_deref(), Some("/lib/c.epub"));
    assert_eq!(stamps[0].id.len(), 36);
    assert_ne!(stamps[0].id, stamps[1].id);
    // Staging the same plan again supersedes the first round.
    generate_pending_changes_from_organize(&mut q, &p);
    assert_eq!(q.changes.len(), 2);
}
