use folio::stamps::{draw_ids, open_scan, stage};
use folio::changes::{ChangeKind, ChangeQueue, ChangeStatus};
use folio::scanner::SessionStatus;
use folio::text::{
    collapse, contains, format_integer, replace, same_text, split_words, trim,
};

#[test]
fn trimming_drops_white_space_at_both_ends() {
    assert_eq!(trim("  a b \t\n"), "a b");
    assert_eq!(trim("\u{a0}x\u{2003}"), "x");
    assert_eq!(trim(""), "");
    assert_eq!(trim(" \n "), "");
}

#[test]
fn collapsing_joins_words_by_single_spaces() {
    assert_eq!(collapse(" a \t b\n\nc "), "a b c");
    assert_eq!(split_words(" a \t b\n\nc "), vec!["a", "b", "c"]);
    assert_eq!(split_words(""), Vec::<String>::new());
    assert_eq!(split_words("word"), vec!["word"]);
}

#[test]
fn replacing_goes_left_to_right_without_overlap() {
    assert_eq!(replace("aaaa", "aa", "b"), "bb");
    assert_eq!(replace("aaa", "aa", "b"), "ba");
    assert_eq!(replace("x{T}y{T}", "{T}", "--"), "x--y--");
    assert_eq!(replace("abc", "", "z"), "abc");
    assert_eq!(replace("abc", "abcd", "z"), "abc");
    assert_eq!(replace("", "a", "z"), "");
}

#[test]
fn parts_are_found_anywhere() {
    assert!(contains("an english writer", "writer"));
    assert!(contains("abc", ""));
    assert!(contains("", ""));
    assert!(!contains("abc", "abcd"));
    assert!(!contains("abc", "ca"));
    assert!(same_text("é", "é"));
    assert!(!same_text("e", "é"));
}

#[test]
fn integers_are_written_in_decimal() {
    assert_eq!(format_integer(0), "0");
    assert_eq!(format_integer(7), "7");
    assert_eq!(format_integer(1234567890), "1234567890");
    assert_eq!(format_integer(-1), "-1");
    assert_eq!(format_integer(i64::MAX), "9223372036854775807");
}

#[test]
fn fresh_identifiers_have_the_hyphenated_shape() {
    let ids = draw_ids();
    assert_eq!(ids.file.len(), 36);
    assert_eq!(ids.item.len(), 36);
    assert_ne!(ids.file, ids.item);
    assert_eq!(ids.file.matches('-').count(), 4);
}

#[test]
fn a_scan_opens_running_and_empty() {
    let (run, started) = open_scan("/lib", true).unwrap();
    assert_eq!(run.session.root_path, "/lib");
    assert_eq!(run.session.status, SessionStatus::Running);
    assert_eq!(run.session.started_at, started);
    assert_eq!(run.session.ended_at, None);
    assert_eq!(run.session.id.len(), 36);
    assert!(run.entries.is_empty());
    assert!(run.seen.is_empty());
    assert!(started > 1_600_000_000_000);
}

#[test]
fn a_scan_of_a_root_that_does_not_exist_does_not_start() {
    assert_eq!(open_scan("/nowhere", false).unwrap_err(), folio::scanner::ScanError::RootMissing);
}

#[test]
fn staging_enqueues_under_a_fresh_identifier() {
    let mut q = ChangeQueue::new();
    let stamp = stage(
        &mut q,
        "f1".to_string(),
        ChangeKind::Delete,
        Some("/lib/a.epub".to_string()),
        None,
        None,
    );
    assert_eq!(q.changes.len(), 1);
    assert_eq!(q.changes[0].id, stamp.id);
    assert_eq!(q.changes[0].created_at, stamp.now);
    assert_eq!(q.changes[0].status, ChangeStatus::Pending);
    assert_eq!(q.changes[0].file_id, "f1");
    assert_eq!(q.changes[0].from_path.as_deref(), Some("/lib/a.epub"));
}
