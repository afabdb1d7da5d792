use folio::records::{FileStatus, IssueKind, Library};
use folio::scanner::{
    extension_for, is_scan_target, name_for, refreshes_metadata, title_seed, FreshIds, Observed,
    Probe, ScanAction, ScanError, ScanRun, ScanStats, SessionStatus, Verdict,
};

fn seen(path: &str, size: i64, modified: i64) -> Observed {
    Observed { path: path.to_string(), size_bytes: size, modified_at: Some(modified) }
}

fn ids(file: &str, item: &str) -> FreshIds {
    FreshIds { file: file.to_string(), item: item.to_string() }
}

/// One pass over the given files, each with its fingerprint. `exists` says
/// which recorded paths are still on disk.
fn pass(
    lib: &mut Library,
    session: &str,
    files: &[(Observed, &str)],
    exists: &[&str],
    now: i64,
) -> ScanRun {
    let mut run = ScanRun::begin(session.to_string(), "/lib", now);
    for (n, (obs, fingerprint)) in files.iter().enumerate() {
        if run.probe(lib, obs, now) == Probe::Unchanged {
            continue;
        }
        let old_exists = match lib.find_fingerprint(fingerprint) {
            Some(i) => exists.contains(&lib.files[i].path.as_str()),
            None => false,
        };
        let fresh = ids(&format!("{}-file-{}", session, n), &format!("{}-item-{}", session, n));
        run.settle(lib, obs, fingerprint, old_exists, fresh, now).unwrap();
    }
    run.finish(lib, now, now + 1);
    run
}

#[test]
fn first_scan_adds_a_record_and_an_item() {
    let mut lib = Library::new();
    let run = pass(&mut lib, "s1", &[(seen("/lib/My_Book.epub", 10, 100), "aa")], &[], 1000);
    assert_eq!(run.stats, ScanStats { added: 1, updated: 0, moved: 0, unchanged: 0, missing: 0 });
    assert_eq!(run.session.status, SessionStatus::Success);
    assert_eq!(run.session.ended_at, Some(1001));
    assert_eq!(lib.files.len(), 1);
    assert_eq!(lib.items.len(), 1);
    let rec = &lib.files[0];
    assert_eq!(rec.id, "s1-file-0");
    assert_eq!(rec.item_id, "s1-item-0");
    assert_eq!(rec.path, "/lib/My_Book.epub");
    assert_eq!(rec.filename, "My_Book.epub");
    assert_eq!(rec.extension, ".epub");
    assert_eq!(rec.size_bytes, Some(10));
    assert_eq!(rec.modified_at, Some(100));
    assert_eq!(rec.fingerprint.as_deref(), Some("aa"));
    assert_eq!(rec.status, FileStatus::Active);
    assert_eq!(lib.items[0].id, "s1-item-0");
    assert_eq!(lib.items[0].title.as_deref(), Some("My Book"));
    assert_eq!(run.entries.len(), 1);
    assert_eq!(run.entries[0].action, ScanAction::Added);
    assert_eq!(run.entries[0].file_id, "s1-file-0");
    assert_eq!(run.entries[0].session_id, "s1");
}

#[test]
fn rescanning_an_unchanged_directory_changes_nothing() {
    let mut lib = Library::new();
    let files = [
        (seen("/lib/a.epub", 10, 100), "aa"),
        (seen("/lib/b.pdf", 20, 200), "bb"),
    ];
    let on_disk = ["/lib/a.epub", "/lib/b.pdf"];
    pass(&mut lib, "s1", &files, &on_disk, 1000);
    let mut run = ScanRun::begin("s2".to_string(), "/lib", 2000);
    for (obs, _) in files.iter() {
        // The fast path answers; no fingerprint is ever asked for.
        assert_eq!(run.probe(&mut lib, obs, 2000), Probe::Unchanged);
    }
    run.finish(&mut lib, 2000, 2001);
    assert_eq!(run.stats, ScanStats { added: 0, updated: 0, moved: 0, unchanged: 2, missing: 0 });
    assert_eq!(lib.files.len(), 2);
    assert_eq!(lib.items.len(), 2);
    assert!(lib.files.iter().all(|f| f.status == FileStatus::Active));
}

#[test]
fn a_renamed_file_is_moved_and_keeps_its_record() {
    let mut lib = Library::new();
    pass(&mut lib, "s1", &[(seen("/lib/old.epub", 10, 100), "aa")], &["/lib/old.epub"], 1000);
    let run = pass(&mut lib, "s2", &[(seen("/lib/new.epub", 10, 150), "aa")], &["/lib/new.epub"], 2000);
    assert_eq!(run.stats, ScanStats { added: 0, updated: 0, moved: 1, unchanged: 0, missing: 0 });
    assert_eq!(lib.files.len(), 1);
    assert_eq!(lib.items.len(), 1);
    let rec = &lib.files[0];
    assert_eq!(rec.id, "s1-file-0");
    assert_eq!(rec.item_id, "s1-item-0");
    assert_eq!(rec.path, "/lib/new.epub");
    assert_eq!(rec.filename, "new.epub");
    assert_eq!(rec.modified_at, Some(150));
    assert_eq!(rec.updated_at, 2000);
    assert_eq!(rec.status, FileStatus::Active);
    assert_eq!(run.entries[0].action, ScanAction::Moved);
}

#[test]
fn a_copied_file_is_a_duplicate_and_leaves_the_original_alone() {
    let mut lib = Library::new();
    pass(&mut lib, "s1", &[(seen("/lib/a.epub", 10, 100), "aa")], &["/lib/a.epub"], 1000);
    let files = [
        (seen("/lib/a.epub", 10, 100), "aa"),
        (seen("/lib/copy.epub", 10, 300), "aa"),
    ];
    let run = pass(&mut lib, "s2", &files, &["/lib/a.epub", "/lib/copy.epub"], 2000);
    assert_eq!(run.stats, ScanStats { added: 1, updated: 0, moved: 0, unchanged: 1, missing: 0 });
    assert_eq!(lib.files.len(), 2);
    assert_eq!(lib.items.len(), 1);
    let original = &lib.files[0];
    assert_eq!(original.id, "s1-file-0");
    assert_eq!(original.path, "/lib/a.epub");
    assert_eq!(original.updated_at, 1000);
    let copy = &lib.files[1];
    assert_eq!(copy.id, "s2-file-1");
    assert_eq!(copy.path, "/lib/copy.epub");
    assert_eq!(copy.item_id, original.item_id);
    assert_eq!(copy.fingerprint, original.fingerprint);
    assert_eq!(copy.status, FileStatus::Active);
    assert_eq!(lib.issues.len(), 1);
    assert_eq!(lib.issues[0].kind, IssueKind::Duplicate);
    assert_eq!(lib.issues[0].file_id.as_deref(), Some("s1-file-0"));
    assert_eq!(lib.issues[0].message, "Duplicate content detected by hash.");
    assert_eq!(lib.issues[0].resolved_at, None);
}

#[test]
fn a_deleted_file_goes_missing_not_inactive() {
    let mut lib = Library::new();
    pass(&mut lib, "s1", &[(seen("/lib/a.epub", 10, 100), "aa")], &["/lib/a.epub"], 1000);
    let run = pass(&mut lib, "s2", &[], &[], 2000);
    assert_eq!(run.stats, ScanStats { added: 0, updated: 0, moved: 0, unchanged: 0, missing: 1 });
    assert_eq!(lib.files.len(), 1);
    assert_eq!(lib.files[0].status, FileStatus::Missing);
    assert_eq!(lib.files[0].updated_at, 2000);
    assert_eq!(run.entries.len(), 1);
    assert_eq!(run.entries[0].action, ScanAction::Missing);
    assert_eq!(run.entries[0].path, "/lib/a.epub");
    assert_eq!(run.entries[0].size_bytes, None);
    // A third pass finds nothing new to mark.
    let again = pass(&mut lib, "s3", &[], &[], 3000);
    assert_eq!(again.stats.missing, 0);
    assert_eq!(lib.files[0].status, FileStatus::Missing);
}

#[test]
fn a_missing_file_that_reappears_unchanged_is_reactivated() {
    let mut lib = Library::new();
    let file = [(seen("/lib/a.epub", 10, 100), "aa")];
    pass(&mut lib, "s1", &file, &["/lib/a.epub"], 1000);
    pass(&mut lib, "s2", &[], &[], 2000);
    assert_eq!(lib.files[0].status, FileStatus::Missing);
    let run = pass(&mut lib, "s3", &file, &["/lib/a.epub"], 3000);
    assert_eq!(run.stats, ScanStats { added: 0, updated: 0, moved: 0, unchanged: 1, missing: 0 });
    assert_eq!(lib.files[0].status, FileStatus::Active);
    assert_eq!(lib.files[0].updated_at, 3000);
}

#[test]
fn changed_content_at_a_known_path_is_an_update() {
    let mut lib = Library::new();
    pass(&mut lib, "s1", &[(seen("/lib/a.epub", 10, 100), "aa")], &["/lib/a.epub"], 1000);
    let run = pass(&mut lib, "s2", &[(seen("/lib/a.epub", 12, 500), "bb")], &["/lib/a.epub"], 2000);
    assert_eq!(run.stats, ScanStats { added: 0, updated: 1, moved: 0, unchanged: 0, missing: 0 });
    assert_eq!(lib.files.len(), 1);
    assert_eq!(lib.files[0].id, "s1-file-0");
    assert_eq!(lib.files[0].fingerprint.as_deref(), Some("bb"));
    assert_eq!(lib.files[0].size_bytes, Some(12));
    assert_eq!(lib.items.len(), 1);
}

#[test]
fn files_outside_the_root_are_not_marked_missing() {
    let mut lib = Library::new();
    let mut run = ScanRun::begin("s0".to_string(), "/other", 500);
    let obs = seen("/other/x.epub", 1, 1);
    assert_eq!(run.probe(&mut lib, &obs, 500), Probe::NeedsFingerprint);
    assert_eq!(run.settle(&mut lib, &obs, "xx", false, ids("f0", "i0"), 500), Ok(Verdict::Added));
    run.finish(&mut lib, 500, 501);
    let run = pass(&mut lib, "s1", &[], &[], 1000);
    assert_eq!(run.stats.missing, 0);
    assert_eq!(lib.files[0].status, FileStatus::Active);
}

#[test]
fn a_sibling_directory_that_begins_like_the_root_is_left_alone() {
    let mut lib = Library::new();
    let mut run = ScanRun::begin("s0".to_string(), "/lib2", 500);
    let obs = seen("/lib2/a.epub", 1, 1);
    assert_eq!(run.probe(&mut lib, &obs, 500), Probe::NeedsFingerprint);
    assert_eq!(run.settle(&mut lib, &obs, "xx", false, ids("f0", "i0"), 500), Ok(Verdict::Added));
    run.finish(&mut lib, 500, 501);
    // A pass over /lib that visits nothing.
    let run = pass(&mut lib, "s1", &[], &[], 1000);
    assert_eq!(run.stats.missing, 0);
    assert!(run.entries.is_empty());
    assert_eq!(lib.files[0].status, FileStatus::Active);
    assert_eq!(lib.files[0].updated_at, 500);
    // A pass over /lib2 that visits nothing marks it.
    let mut own = ScanRun::begin("s2".to_string(), "/lib2", 2000);
    own.finish(&mut lib, 2000, 2001);
    assert_eq!(own.stats.missing, 1);
    assert_eq!(lib.files[0].status, FileStatus::Missing);
}

#[test]
fn metadata_is_read_again_for_added_and_updated_files_only() {
    assert!(refreshes_metadata(Verdict::Added));
    assert!(refreshes_metadata(Verdict::Updated));
    assert!(!refreshes_metadata(Verdict::Moved));
    assert!(!refreshes_metadata(Verdict::Duplicate));
}

#[test]
fn an_identifier_that_is_taken_stops_the_file_and_changes_nothing() {
    let mut lib = Library::new();
    pass(&mut lib, "s1", &[(seen("/lib/a.epub", 10, 100), "aa")], &["/lib/a.epub"], 1000);
    let mut run = ScanRun::begin("s2".to_string(), "/lib", 2000);
    let obs = seen("/lib/b.epub", 5, 5);
    assert_eq!(run.probe(&mut lib, &obs, 2000), Probe::NeedsFingerprint);
    let taken_file = run.settle(&mut lib, &obs, "bb", false, ids("s1-file-0", "fresh"), 2000);
    assert_eq!(taken_file, Err(ScanError::FileIdTaken));
    let taken_item = run.settle(&mut lib, &obs, "bb", false, ids("fresh", "s1-item-0"), 2000);
    assert_eq!(taken_item, Err(ScanError::ItemIdTaken));
    assert_eq!(lib.files.len(), 1);
    assert_eq!(lib.items.len(), 1);
    assert_eq!(run.entries.len(), 0);
    assert_eq!(run.stats.added, 0);
}

#[test]
fn a_failed_pass_is_marked_failed() {
    let mut run = ScanRun::begin("s1".to_string(), "/lib", 1000);
    assert_eq!(run.session.status, SessionStatus::Running);
    run.fail(1500);
    assert_eq!(run.session.status, SessionStatus::Failed);
    assert_eq!(run.session.ended_at, Some(1500));
}

#[test]
fn a_session_that_has_ended_stays_as_it_ended() {
    let mut lib = Library::new();
    let mut run = pass(&mut lib, "s1", &[(seen("/lib/a.epub", 10, 100), "aa")], &["/lib/a.epub"], 1000);
    assert_eq!(run.session.status, SessionStatus::Success);
    run.fail(5000);
    assert_eq!(run.session.status, SessionStatus::Success);
    assert_eq!(run.session.ended_at, Some(1001));
    let mut failed = ScanRun::begin("s2".to_string(), "/lib", 2000);
    failed.fail(2500);
    failed.finish(&mut lib, 2000, 3000);
    assert_eq!(failed.session.status, SessionStatus::Failed);
    assert_eq!(failed.session.ended_at, Some(2500));
    assert_eq!(lib.files[0].status, FileStatus::Active);
    assert!(failed.entries.is_empty());
}

#[test]
fn progress_counts_the_files_visited() {
    let mut lib = Library::new();
    let mut run = ScanRun::begin("s1".to_string(), "/lib", 1000);
    let first = run.progress(2, "/lib/a.epub");
    assert_eq!((first.processed, first.total, first.current.as_str()), (0, 2, "a.epub"));
    run.probe(&mut lib, &seen("/lib/a.epub", 1, 1), 1000);
    let second = run.progress(2, "/lib/sub/b.pdf");
    assert_eq!((second.processed, second.total, second.current.as_str()), (1, 2, "b.pdf"));
}

#[test]
fn the_most_recent_active_record_answers_for_a_fingerprint() {
    let mut lib = Library::new();
    let files = [
        (seen("/lib/a.epub", 10, 100), "aa"),
        (seen("/lib/b.epub", 10, 100), "aa"),
    ];
    pass(&mut lib, "s1", &files, &["/lib/a.epub", "/lib/b.epub"], 1000);
    assert_eq!(lib.files.len(), 2);
    // Both are active and equally recent: the earlier one answers.
    assert_eq!(lib.find_fingerprint("aa"), Some(0));
    lib.files[1].updated_at = 5000;
    assert_eq!(lib.find_fingerprint("aa"), Some(1));
    lib.files[1].status = FileStatus::Missing;
    assert_eq!(lib.find_fingerprint("aa"), Some(0));
    lib.files[0].status = FileStatus::Inactive;
    assert_eq!(lib.find_fingerprint("aa"), Some(1));
    lib.files[1].status = FileStatus::Inactive;
    assert_eq!(lib.find_fingerprint("aa"), None);
}

#[test]
fn names_extensions_and_titles_are_derived_from_the_path() {
    assert_eq!(name_for("/lib/Some Book.EPUB"), "Some Book.EPUB");
    assert_eq!(name_for("/lib/"), "file");
    assert_eq!(extension_for("/lib/Some Book.EPUB"), ".epub");
    assert_eq!(extension_for("/lib/noext"), ".");
    assert_eq!(title_seed("/lib/The_Long_Way.epub"), Some("The Long Way".to_string()));
    assert_eq!(title_seed("/lib/"), None);
}

#[test]
fn only_the_two_supported_formats_are_scanned() {
    assert!(is_scan_target("/lib/a.epub"));
    assert!(is_scan_target("/lib/a.PDF"));
    assert!(is_scan_target("/lib/a.Epub"));
    assert!(!is_scan_target("/lib/a.mobi"));
    assert!(!is_scan_target("/lib/epub"));
    assert!(!is_scan_target("/lib/a.epub.txt"));
}
