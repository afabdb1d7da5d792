use folio::applier::{OperationStats, Outcome, ProgressStatus, Step};
use folio::changes::{ChangeKind, ChangeQueue, ChangeStatus, PendingChange};
use folio::records::{FileRecord, FileStatus, HashAlgo, Issue, IssueKind, Library};

fn change(id: &str, file: &str, kind: ChangeKind, from: Option<&str>, to: Option<&str>, at: i64) -> PendingChange {
    PendingChange {
        id: id.to_string(),
        file_id: file.to_string(),
        kind,
        from_path: from.map(|s| s.to_string()),
        to_path: to.map(|s| s.to_string()),
        payload: None,
        status: ChangeStatus::Pending,
        created_at: at,
        applied_at: None,
        error: None,
    }
}

fn record(id: &str, path: &str) -> FileRecord {
    FileRecord {
        id: id.to_string(),
        item_id: format!("item-{}", id),
        path: path.to_string(),
        filename: path.rsplit('/').next().unwrap().to_string(),
        extension: ".epub".to_string(),
        size_bytes: Some(1),
        modified_at: Some(1),
        fingerprint: Some("aa".to_string()),
        hash_algo: Some(HashAlgo::Sha256),
        status: FileStatus::Active,
        created_at: 1,
        updated_at: 1,
    }
}

fn failed(message: &str, not_found: bool) -> Outcome {
    Outcome::Failed { not_found, message: message.to_string() }
}

#[test]
fn a_second_metadata_edit_supersedes_the_first() {
    let mut q = ChangeQueue::new();
    let mut first = change("c1", "f1", ChangeKind::MetadataEdit, Some("/lib/a.epub"), None, 10);
    first.payload = Some("{\"title\":\"A\"}".to_string());
    let mut second = change("c2", "f1", ChangeKind::MetadataEdit, Some("/lib/a.epub"), None, 20);
    second.payload = Some("{\"title\":\"B\"}".to_string());
    q.enqueue(first);
    q.enqueue(second);
    let pending: Vec<&PendingChange> = q
        .changes
        .iter()
        .filter(|c| c.status == ChangeStatus::Pending && c.file_id == "f1")
        .collect();
    assert_eq!(pending.len(), 1);
    assert_eq!(pending[0].id, "c2");
    assert_eq!(pending[0].payload.as_deref(), Some("{\"title\":\"B\"}"));
}

#[test]
fn supersession_is_scoped_to_kind_and_file() {
    let mut q = ChangeQueue::new();
    q.enqueue(change("c1", "f1", ChangeKind::MetadataEdit, Some("/a"), None, 1));
    q.enqueue(change("c2", "f1", ChangeKind::Rename, Some("/a"), Some("/b"), 2));
    q.enqueue(change("c3", "f2", ChangeKind::MetadataEdit, Some("/c"), None, 3));
    q.enqueue(change("c4", "f1", ChangeKind::MetadataEdit, Some("/a"), None, 4));
    let ids: Vec<&str> = q.changes.iter().map(|c| c.id.as_str()).collect();
    assert_eq!(ids, vec!["c2", "c3", "c4"]);
}

#[test]
fn changes_that_were_applied_or_failed_are_not_superseded() {
    let mut q = ChangeQueue::new();
    let mut applied = change("c1", "f1", ChangeKind::Delete, Some("/a"), None, 1);
    applied.status = ChangeStatus::Pending;
    q.enqueue(applied);
    q.changes[0].status = ChangeStatus::Applied;
    q.enqueue(change("c2", "f1", ChangeKind::Delete, Some("/a"), None, 2));
    q.changes[1].status = ChangeStatus::Error;
    q.enqueue(change("c3", "f1", ChangeKind::Delete, Some("/a"), None, 3));
    let ids: Vec<&str> = q.changes.iter().map(|c| c.id.as_str()).collect();
    assert_eq!(ids, vec!["c1", "c2", "c3"]);
}

#[test]
fn enqueueing_always_stores_a_pending_change() {
    let mut q = ChangeQueue::new();
    let mut odd = change("c1", "f1", ChangeKind::Delete, Some("/a"), None, 1);
    odd.status = ChangeStatus::Error;
    odd.applied_at = Some(5);
    odd.error = Some("old".to_string());
    q.enqueue(odd);
    assert_eq!(q.changes[0].status, ChangeStatus::Pending);
    assert_eq!(q.changes[0].applied_at, None);
    assert_eq!(q.changes[0].error, None);
}

#[test]
fn a_failure_in_the_middle_of_a_batch_is_isolated() {
    let mut lib = Library::new();
    lib.files.push(record("f1", "/in/a.epub"));
    lib.files.push(record("f2", "/in/b.epub"));
    lib.files.push(record("f3", "/in/c.epub"));
    let mut q = ChangeQueue::new();
    q.enqueue(change("c1", "f1", ChangeKind::Rename, Some("/in/a.epub"), Some("/lib/A/a.epub"), 10));
    q.enqueue(change("c2", "f2", ChangeKind::Rename, Some("/in/gone.epub"), Some("/lib/B/b.epub"), 20));
    q.enqueue(change("c3", "f3", ChangeKind::Rename, Some("/in/c.epub"), Some("/lib/C/c.epub"), 30));
    let on_disk = ["/in/a.epub", "/in/c.epub"];
    let mut batch = q.begin_batch(&vec![]);
    assert_eq!(batch.order, vec![0, 1, 2]);
    let mut events = vec![];
    while let Some(idx) = batch.current() {
        let outcome = match q.plan(&lib, idx) {
            Step::MoveFile { from, .. } => {
                if on_disk.contains(&from.as_str()) {
                    Outcome::Done
                } else {
                    failed("No such file or directory (os error 2)", true)
                }
            }
            other => panic!("unexpected step {:?}", other),
        };
        events.push(q.conclude(&mut lib, &mut batch, outcome, 1000).unwrap());
    }
    assert!(batch.is_done());
    assert_eq!(batch.stats, OperationStats { total: 3, processed: 2, skipped: 0, errors: 1 });
    assert_eq!(q.changes[0].status, ChangeStatus::Applied);
    assert_eq!(q.changes[0].applied_at, Some(1000));
    assert_eq!(q.changes[1].status, ChangeStatus::Error);
    assert_eq!(q.changes[1].error.as_deref(), Some("No such file or directory (os error 2)"));
    assert_eq!(q.changes[1].applied_at, None);
    assert_eq!(q.changes[2].status, ChangeStatus::Applied);
    assert_eq!(lib.files[0].path, "/lib/A/a.epub");
    assert_eq!(lib.files[0].filename, "a.epub");
    assert_eq!(lib.files[0].extension, "epub");
    assert_eq!(lib.files[0].updated_at, 1000);
    assert_eq!(lib.files[1].path, "/in/b.epub");
    assert_eq!(lib.files[1].updated_at, 1);
    assert_eq!(lib.files[2].path, "/lib/C/c.epub");
    let statuses: Vec<ProgressStatus> = events.iter().map(|e| e.status).collect();
    assert_eq!(statuses, vec![ProgressStatus::Done, ProgressStatus::Error, ProgressStatus::Done]);
    assert_eq!(events[1].current, 2);
    assert_eq!(events[1].total, 3);
    assert_eq!(events[1].item_id, "c2");
}

#[test]
fn changes_are_applied_oldest_first() {
    let mut q = ChangeQueue::new();
    q.enqueue(change("late", "f1", ChangeKind::Delete, Some("/a"), None, 30));
    q.enqueue(change("early", "f2", ChangeKind::Delete, Some("/b"), None, 10));
    q.enqueue(change("tie-1", "f3", ChangeKind::Delete, Some("/c"), None, 20));
    q.enqueue(change("tie-2", "f4", ChangeKind::Delete, Some("/d"), None, 20));
    q.changes[2].status = ChangeStatus::Applied;
    let batch = q.begin_batch(&vec![]);
    assert_eq!(batch.order, vec![1, 3, 0]);
    assert_eq!(batch.stats.total, 3);
}

#[test]
fn a_batch_can_be_picked_by_identifier() {
    let mut q = ChangeQueue::new();
    q.enqueue(change("c1", "f1", ChangeKind::Delete, Some("/a"), None, 1));
    q.enqueue(change("c2", "f2", ChangeKind::Delete, Some("/b"), None, 2));
    q.enqueue(change("c3", "f3", ChangeKind::Delete, Some("/c"), None, 3));
    q.changes[1].status = ChangeStatus::Error;
    let wanted = vec!["c3".to_string(), "nope".to_string(), "c2".to_string(), "c1".to_string()];
    let batch = q.begin_batch(&wanted);
    assert_eq!(batch.order, vec![2, 0]);
}

#[test]
fn a_change_listed_twice_is_applied_once() {
    let mut lib = Library::new();
    lib.files.push(record("f1", "/in/a.epub"));
    let mut q = ChangeQueue::new();
    q.enqueue(change("c1", "f1", ChangeKind::Delete, Some("/in/a.epub"), None, 1));
    let mut batch = q.begin_batch(&vec!["c1".to_string(), "c1".to_string()]);
    assert_eq!(batch.order, vec![0, 0]);
    let first = q.conclude(&mut lib, &mut batch, Outcome::Done, 50).unwrap();
    let second = q.conclude(&mut lib, &mut batch, failed("boom", false), 60).unwrap();
    assert_eq!(first.status, ProgressStatus::Done);
    assert_eq!(second.status, ProgressStatus::Skipped);
    assert_eq!(q.changes[0].status, ChangeStatus::Applied);
    assert_eq!(q.changes[0].applied_at, Some(50));
    assert_eq!(batch.stats, OperationStats { total: 2, processed: 1, skipped: 1, errors: 0 });
    assert!(q.conclude(&mut lib, &mut batch, Outcome::Done, 70).is_none());
}

#[test]
fn renames_are_planned_from_the_change_or_from_the_record() {
    let mut lib = Library::new();
    lib.files.push(record("f1", "/in/a.epub"));
    let mut q = ChangeQueue::new();
    q.enqueue(change("c1", "f1", ChangeKind::Rename, None, Some("/lib/x/a.epub"), 1));
    q.enqueue(change("c2", "f9", ChangeKind::Rename, None, Some("/lib/x/b.epub"), 2));
    q.enqueue(change("c3", "f2", ChangeKind::Rename, Some("/in/c.epub"), None, 3));
    q.enqueue(change("c4", "f3", ChangeKind::Rename, Some("/in/d.epub"), Some("/"), 4));
    match q.plan(&lib, 0) {
        Step::MoveFile { from, to, dir } => {
            assert_eq!(from, "/in/a.epub");
            assert_eq!(to, "/lib/x/a.epub");
            assert_eq!(dir, "/lib/x");
        }
        other => panic!("unexpected step {:?}", other),
    }
    match q.plan(&lib, 1) {
        Step::Reject { message } => assert_eq!(message, "Unknown file"),
        other => panic!("unexpected step {:?}", other),
    }
    match q.plan(&lib, 2) {
        Step::Reject { message } => assert_eq!(message, "Missing target path"),
        other => panic!("unexpected step {:?}", other),
    }
    match q.plan(&lib, 3) {
        Step::Reject { message } => assert_eq!(message, "Invalid target path"),
        other => panic!("unexpected step {:?}", other),
    }
}

#[test]
fn a_rejected_change_fails_with_its_reason() {
    let mut lib = Library::new();
    let mut q = ChangeQueue::new();
    q.enqueue(change("c1", "f1", ChangeKind::Delete, None, None, 1));
    q.enqueue(change("c2", "f1", ChangeKind::MetadataEdit, None, None, 2));
    q.enqueue(change("c3", "f2", ChangeKind::MetadataEdit, Some("/a.epub"), None, 3));
    let mut batch = q.begin_batch(&vec![]);
    for _ in 0..3 {
        q.conclude(&mut lib, &mut batch, Outcome::Done, 9);
    }
    assert_eq!(q.changes[0].error.as_deref(), Some("Missing file path"));
    assert_eq!(q.changes[1].error.as_deref(), Some("Missing EPUB path"));
    assert_eq!(q.changes[2].error.as_deref(), Some("Missing changes"));
    assert_eq!(batch.stats.errors, 3);
}

#[test]
fn a_change_of_an_unknown_kind_fails_alone() {
    let mut lib = Library::new();
    lib.files.push(record("f1", "/lib/a.epub"));
    lib.files.push(record("f2", "/lib/b.epub"));
    let mut q = ChangeQueue::new();
    q.enqueue(change("c1", "f1", ChangeKind::Unsupported, Some("/lib/a.epub"), None, 1));
    q.enqueue(change("c2", "f2", ChangeKind::Delete, Some("/lib/b.epub"), None, 2));
    match q.plan(&lib, 0) {
        Step::Reject { message } => assert_eq!(message, "Unsupported change type"),
        other => panic!("unexpected step {:?}", other),
    }
    let mut batch = q.begin_batch(&vec![]);
    q.conclude(&mut lib, &mut batch, Outcome::Done, 9);
    q.conclude(&mut lib, &mut batch, Outcome::Done, 9);
    assert_eq!(q.changes[0].status, ChangeStatus::Error);
    assert_eq!(q.changes[0].error.as_deref(), Some("Unsupported change type"));
    assert_eq!(q.changes[1].status, ChangeStatus::Applied);
    assert_eq!(lib.files[0].status, FileStatus::Active);
    assert_eq!(lib.files[1].status, FileStatus::Inactive);
    assert_eq!(batch.stats, OperationStats { total: 2, processed: 1, skipped: 0, errors: 1 });
}

#[test]
fn a_removal_retires_the_record_and_resolves_its_duplicate_issue() {
    let mut lib = Library::new();
    lib.files.push(record("f1", "/lib/a.epub"));
    lib.files.push(record("f2", "/lib/b.epub"));
    for file in ["f1", "f2"] {
        lib.issues.push(Issue {
            item_id: "item".to_string(),
            file_id: Some(file.to_string()),
            kind: IssueKind::Duplicate,
            message: "Duplicate content detected by hash.".to_string(),
            created_at: 1,
            resolved_at: None,
        });
    }
    let mut q = ChangeQueue::new();
    q.enqueue(change("c1", "f1", ChangeKind::Delete, Some("/lib/a.epub"), None, 1));
    let mut batch = q.begin_batch(&vec![]);
    q.conclude(&mut lib, &mut batch, Outcome::Done, 77);
    assert_eq!(lib.files[0].status, FileStatus::Inactive);
    assert_eq!(lib.files[0].updated_at, 77);
    assert_eq!(lib.files[1].status, FileStatus::Active);
    assert_eq!(lib.issues[0].resolved_at, Some(77));
    assert_eq!(lib.issues[1].resolved_at, None);
    assert_eq!(q.changes[0].status, ChangeStatus::Applied);
}

#[test]
fn removing_a_file_that_is_not_there_counts_as_done() {
    let mut lib = Library::new();
    lib.files.push(record("f1", "/lib/a.epub"));
    let mut q = ChangeQueue::new();
    q.enqueue(change("c1", "f1", ChangeKind::Delete, Some("/lib/a.epub"), None, 1));
    let mut batch = q.begin_batch(&vec![]);
    q.conclude(&mut lib, &mut batch, failed("No such file or directory", true), 5);
    assert_eq!(q.changes[0].status, ChangeStatus::Applied);
    assert_eq!(lib.files[0].status, FileStatus::Inactive);
    assert_eq!(batch.stats.processed, 1);
}

#[test]
fn a_removal_that_fails_leaves_the_record_visible() {
    let mut lib = Library::new();
    lib.files.push(record("f1", "/lib/a.epub"));
    lib.files[0].status = FileStatus::Missing;
    let mut q = ChangeQueue::new();
    q.enqueue(change("c1", "f1", ChangeKind::Delete, Some("/lib/a.epub"), None, 1));
    let mut batch = q.begin_batch(&vec![]);
    q.conclude(&mut lib, &mut batch, failed("Permission denied", false), 5);
    assert_eq!(q.changes[0].status, ChangeStatus::Error);
    assert_eq!(
        q.changes[0].error.as_deref(),
        Some("Could not delete file /lib/a.epub: Permission denied")
    );
    assert_eq!(lib.files[0].status, FileStatus::Active);
    assert_eq!(lib.files[0].updated_at, 5);
}

#[test]
fn a_retired_record_stays_retired() {
    let mut lib = Library::new();
    lib.files.push(record("f1", "/lib/a.epub"));
    lib.files[0].status = FileStatus::Inactive;
    let mut q = ChangeQueue::new();
    q.enqueue(change("c1", "f1", ChangeKind::Delete, Some("/lib/a.epub"), None, 1));
    let mut batch = q.begin_batch(&vec![]);
    q.conclude(&mut lib, &mut batch, failed("Permission denied", false), 5);
    assert_eq!(lib.files[0].status, FileStatus::Inactive);
    assert_eq!(lib.files[0].updated_at, 1);
}

#[test]
fn a_metadata_edit_hands_out_path_and_payload() {
    let lib = Library::new();
    let mut q = ChangeQueue::new();
    let mut edit = change("c1", "f1", ChangeKind::MetadataEdit, Some("/lib/a.epub"), None, 1);
    edit.payload = Some("{\"author\":\"X\"}".to_string());
    q.enqueue(edit);
    match q.plan(&lib, 0) {
        Step::RewriteMetadata { path, payload } => {
            assert_eq!(path, "/lib/a.epub");
            assert_eq!(payload, "{\"author\":\"X\"}");
        }
        other => panic!("unexpected step {:?}", other),
    }
    let batch = q.begin_batch(&vec![]);
    let event = q.announce(&batch).unwrap();
    assert_eq!(event.status, ProgressStatus::Processing);
    assert_eq!(event.item_id, "c1");
    assert_eq!(event.message.as_deref(), Some("/lib/a.epub"));
    assert_eq!(event.current, 1);
    assert_eq!(event.total, 1);
}

#[test]
fn clearing_removes_pending_changes_only() {
    let mut q = ChangeQueue::new();
    q.enqueue(change("c1", "f1", ChangeKind::Delete, Some("/a"), None, 1));
    q.enqueue(change("c2", "f2", ChangeKind::Delete, Some("/b"), None, 2));
    q.enqueue(change("c3", "f3", ChangeKind::Delete, Some("/c"), None, 3));
    q.changes[0].status = ChangeStatus::Applied;
    assert_eq!(q.clear_pending(&vec!["c1".to_string(), "c3".to_string()]), 1);
    let ids: Vec<&str> = q.changes.iter().map(|c| c.id.as_str()).collect();
    assert_eq!(ids, vec!["c1", "c2"]);
    assert_eq!(q.clear_pending(&vec![]), 1);
    let ids: Vec<&str> = q.changes.iter().map(|c| c.id.as_str()).collect();
    assert_eq!(ids, vec!["c1"]);
}
