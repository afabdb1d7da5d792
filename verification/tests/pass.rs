use folio::pass::{scan_listing, Listed};
use folio::records::{FileStatus, Library};
use folio::scanner::{FreshIds, Observed, ScanAction, ScanRun, ScanStats, SessionStatus};

fn listed(path: &str, size: i64, modified: i64, fingerprint: &str, tag: &str) -> Listed {
    Listed {
        observed: Observed { path: path.to_string(), size_bytes: size, modified_at: Some(modified) },
        fingerprint: fingerprint.to_string(),
        ids: FreshIds { file: format!("file-{}", tag), item: format!("item-{}", tag) },
    }
}

fn paths(list: &[&str]) -> Vec<String> {
    list.iter().map(|p| p.to_string()).collect()
}

fn counts(added: u64, updated: u64, moved: u64, unchanged: u64, missing: u64) -> ScanStats {
    ScanStats { added, updated, moved, unchanged, missing }
}

#[test]
fn a_second_pass_over_the_same_listing_finds_nothing_new() {
    let mut lib = Library::new();
    let disk = paths(&["/lib/a.epub", "/lib/b.pdf", "/lib/sub/c.epub"]);
    let first = vec![
        listed("/lib/a.epub", 10, 100, "aa", "1"),
        listed("/lib/b.pdf", 20, 200, "bb", "2"),
        listed("/lib/sub/c.epub", 30, 300, "cc", "3"),
    ];
    let run = scan_listing(&mut lib, "s1".to_string(), "/lib", &first, &disk, 1000, 1001);
    assert_eq!(run.stats, counts(3, 0, 0, 0, 0));
    assert_eq!(run.session.status, SessionStatus::Success);
    assert_eq!(lib.files.len(), 3);
    // The same files again, with fingerprints that are never looked at.
    let again = vec![
        listed("/lib/a.epub", 10, 100, "??", "4"),
        listed("/lib/b.pdf", 20, 200, "??", "5"),
        listed("/lib/sub/c.epub", 30, 300, "??", "6"),
    ];
    let rerun = scan_listing(&mut lib, "s2".to_string(), "/lib", &again, &disk, 2000, 2001);
    assert_eq!(rerun.stats, counts(0, 0, 0, 3, 0));
    assert_eq!(rerun.session.status, SessionStatus::Success);
    assert_eq!(rerun.session.ended_at, Some(2001));
    assert_eq!(rerun.entries.len(), 3);
    assert!(rerun.entries.iter().all(|e| e.action == ScanAction::Unchanged && e.fingerprint.is_none()));
    assert_eq!(lib.files.len(), 3);
    assert_eq!(lib.items.len(), 3);
    assert!(lib.files.iter().all(|r| r.status == FileStatus::Active && r.updated_at == 1000));
    assert_eq!(lib.files[0].fingerprint.as_deref(), Some("aa"));
}

#[test]
fn a_pass_tells_moves_copies_updates_and_losses_apart() {
    let mut lib = Library::new();
    let first = vec![
        listed("/lib/a.epub", 10, 100, "aa", "1"),
        listed("/lib/b.epub", 20, 200, "bb", "2"),
        listed("/lib/c.epub", 30, 300, "cc", "3"),
        listed("/lib/d.epub", 40, 400, "dd", "4"),
    ];
    let before = paths(&["/lib/a.epub", "/lib/b.epub", "/lib/c.epub", "/lib/d.epub"]);
    scan_listing(&mut lib, "s1".to_string(), "/lib", &first, &before, 1000, 1001);
    // a was renamed, b was copied, c was rewritten, d is gone.
    let after = paths(&["/lib/a2.epub", "/lib/b.epub", "/lib/b-copy.epub", "/lib/c.epub"]);
    let second = vec![
        listed("/lib/a2.epub", 10, 150, "aa", "5"),
        listed("/lib/b.epub", 20, 200, "bb", "6"),
        listed("/lib/b-copy.epub", 20, 250, "bb", "7"),
        listed("/lib/c.epub", 31, 350, "c2", "8"),
    ];
    let run = scan_listing(&mut lib, "s2".to_string(), "/lib", &second, &after, 2000, 2001);
    assert_eq!(run.stats, counts(1, 1, 1, 1, 1));
    assert_eq!(run.session.status, SessionStatus::Success);
    assert_eq!(lib.files.len(), 5);
    assert_eq!(lib.files[0].id, "file-1");
    assert_eq!(lib.files[0].path, "/lib/a2.epub");
    assert_eq!(lib.files[2].fingerprint.as_deref(), Some("c2"));
    assert_eq!(lib.files[3].status, FileStatus::Missing);
    assert_eq!(lib.files[4].id, "file-7");
    assert_eq!(lib.files[4].item_id, "item-2");
    assert_eq!(lib.files[4].path, "/lib/b-copy.epub");
    assert_eq!(run.entries.last().unwrap().action, ScanAction::Missing);
    assert_eq!(run.entries.last().unwrap().path, "/lib/d.epub");
}

#[test]
fn a_pass_stops_at_the_file_that_cannot_be_settled_and_fails() {
    let mut lib = Library::new();
    let listing = vec![
        listed("/lib/a.epub", 10, 100, "aa", "1"),
        listed("/lib/b.epub", 20, 200, "bb", "1"),
        listed("/lib/c.epub", 30, 300, "cc", "3"),
    ];
    let disk = paths(&["/lib/a.epub", "/lib/b.epub", "/lib/c.epub"]);
    let run = scan_listing(&mut lib, "s1".to_string(), "/lib", &listing, &disk, 1000, 1001);
    assert_eq!(run.session.status, SessionStatus::Failed);
    assert_eq!(run.session.ended_at, Some(1001));
    assert_eq!(run.stats, counts(1, 0, 0, 0, 0));
    assert_eq!(run.entries.len(), 1);
    assert_eq!(run.seen, paths(&["/lib/a.epub", "/lib/b.epub"]));
    assert_eq!(lib.files.len(), 1);
    assert_eq!(lib.files[0].status, FileStatus::Active);
}

#[test]
fn a_walk_returns_where_it_stopped() {
    let mut lib = Library::new();
    let listing = vec![
        listed("/lib/a.epub", 10, 100, "aa", "1"),
        listed("/lib/b.epub", 20, 200, "bb", "1"),
    ];
    let disk = paths(&["/lib/a.epub", "/lib/b.epub"]);
    let mut run = ScanRun::begin("s1".to_string(), "/lib", 1000);
    assert_eq!(run.walk(&mut lib, &listing, &disk, 1000), Some(1));
    let mut other = ScanRun::begin("s2".to_string(), "/lib", 2000);
    assert_eq!(other.walk(&mut lib, &listing[..1].iter().map(|l| listed(&l.observed.path, 10, 100, "aa", "9")).collect(), &disk, 2000), None);
    assert_eq!(other.stats, counts(0, 0, 0, 1, 0));
}
