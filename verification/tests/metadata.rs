use folio::flows::{queue_epub_changes_for_item, resolve_duplicate_group, MetadataEdit, ResolveError};
use folio::changes::{ChangeKind, ChangeQueue};
use folio::metadata::{
    classify_identifier, normalize_optional_description, tidy, ExtractedMetadata, MetadataError,
};
use folio::records::{FileRecord, FileStatus, HashAlgo, IdentifierKind, IssueKind, Item, Library};

fn item(id: &str) -> Item {
    Item {
        id: id.to_string(),
        title: None,
        language: None,
        published_year: None,
        description: None,
        series: None,
        authors: vec![],
        identifiers: vec![],
        created_at: 1,
        updated_at: 1,
    }
}

fn found() -> ExtractedMetadata {
    ExtractedMetadata {
        title: Some("Found Title".to_string()),
        authors: vec!["Ann".to_string(), "Bob".to_string(), "Ann".to_string()],
        language: Some("en".to_string()),
        published_year: Some(2001),
        description: Some("<p>One</p>\r\n\r\n  <p>Two&amp;more</p>".to_string()),
        identifiers: vec!["0-306-40615-2".to_string(), "urn:x".to_string(), "0306406152".to_string()],
        series: Some("Saga".to_string()),
    }
}

fn record(id: &str, item: &str, path: &str, ext: &str, fingerprint: &str) -> FileRecord {
    FileRecord {
        id: id.to_string(),
        item_id: item.to_string(),
        path: path.to_string(),
        filename: "f".to_string(),
        extension: ext.to_string(),
        size_bytes: Some(1),
        modified_at: Some(1),
        fingerprint: Some(fingerprint.to_string()),
        hash_algo: Some(HashAlgo::Sha256),
        status: FileStatus::Active,
        created_at: 1,
        updated_at: 1,
    }
}

#[test]
fn empty_fields_are_filled_in() {
    let mut lib = Library::new();
    lib.items.push(item("i1"));
    assert_eq!(lib.apply_metadata("i1", &found(), 9), Ok(()));
    let it = &lib.items[0];
    assert_eq!(it.title.as_deref(), Some("Found Title"));
    assert_eq!(it.language.as_deref(), Some("en"));
    assert_eq!(it.published_year, Some(2001));
    assert_eq!(it.description.as_deref(), Some("One\nTwo&more"));
    assert_eq!(it.series.as_deref(), Some("Saga"));
    assert_eq!(it.authors, vec!["Ann".to_string(), "Bob".to_string()]);
    assert_eq!(it.identifiers.len(), 2);
    assert_eq!(it.identifiers[0].kind, IdentifierKind::Isbn10);
    assert_eq!(it.identifiers[0].value, "0306406152");
    assert_eq!(it.identifiers[1].kind, IdentifierKind::Other);
    assert_eq!(it.identifiers[1].value, "urn:x");
    assert_eq!(it.updated_at, 9);
    assert_eq!(it.created_at, 1);
    assert!(lib.issues.is_empty());
}

#[test]
fn what_is_there_wins_over_what_was_found() {
    let mut lib = Library::new();
    let mut known = item("i1");
    known.title = Some("Kept Title".to_string());
    known.published_year = Some(1999);
    known.authors = vec!["Bob".to_string()];
    lib.items.push(known);
    lib.apply_metadata("i1", &found(), 9).unwrap();
    let it = &lib.items[0];
    assert_eq!(it.title.as_deref(), Some("Kept Title"));
    assert_eq!(it.published_year, Some(1999));
    assert_eq!(it.language.as_deref(), Some("en"));
    assert_eq!(it.authors, vec!["Bob".to_string(), "Ann".to_string()]);
}

#[test]
fn missing_title_and_author_raise_an_issue() {
    let mut lib = Library::new();
    lib.items.push(item("i1"));
    let nothing = ExtractedMetadata {
        title: None,
        authors: vec![],
        language: None,
        published_year: None,
        description: None,
        identifiers: vec![],
        series: None,
    };
    lib.apply_metadata("i1", &nothing, 9).unwrap();
    assert_eq!(lib.issues.len(), 1);
    assert_eq!(lib.issues[0].kind, IssueKind::MissingMetadata);
    assert_eq!(lib.issues[0].message, "Missing metadata: title, author.");
    assert_eq!(lib.issues[0].item_id, "i1");
    assert_eq!(lib.issues[0].file_id, None);
    lib.items[0].title = Some("T".to_string());
    lib.apply_metadata("i1", &nothing, 10).unwrap();
    assert_eq!(lib.issues[1].message, "Missing metadata: author.");
    lib.items[0].title = None;
    let mut authors_only = nothing;
    authors_only.authors = vec!["Ann".to_string()];
    lib.apply_metadata("i1", &authors_only, 11).unwrap();
    assert_eq!(lib.issues[2].message, "Missing metadata: title.");
}

#[test]
fn an_unknown_item_changes_nothing() {
    let mut lib = Library::new();
    lib.items.push(item("i1"));
    assert_eq!(lib.apply_metadata("nope", &found(), 9), Err(MetadataError::UnknownItem));
    assert_eq!(lib.items[0].title, None);
    assert!(lib.issues.is_empty());
}

#[test]
fn descriptions_lose_markup_and_blank_lines() {
    let d = |s: &str| normalize_optional_description(Some(s.to_string()));
    assert_eq!(d("plain text"), Some("plain text".to_string()));
    assert_eq!(d("  a  \n\n  b  "), Some("a\nb".to_string()));
    assert_eq!(d("<p>First</p><p>Second</p>"), Some("First\nSecond".to_string()));
    assert_eq!(d("one<br/>two<BR>three"), Some("one\ntwo\nthree".to_string()));
    assert_eq!(d("<ul><li>a</li><li>b</li></ul>"), Some("- a\n- b".to_string()));
    assert_eq!(d("Tom &amp; Jerry"), Some("Tom & Jerry".to_string()));
    assert_eq!(d("a\u{a0}b"), Some("a b".to_string()));
    assert_eq!(d("a\r\nb\rc"), Some("a\nb\nc".to_string()));
    assert_eq!(d("bad &entity; stays"), Some("bad &entity; stays".to_string()));
    assert_eq!(d("2 < 3"), Some("2 < 3".to_string()));
    assert_eq!(d("   "), None);
    assert_eq!(d("<p> </p>"), None);
    assert_eq!(normalize_optional_description(None), None);
}

#[test]
fn blank_lines_are_dropped_and_lines_trimmed() {
    assert_eq!(tidy(""), "");
    assert_eq!(tidy("\n\n"), "");
    assert_eq!(tidy(" a "), "a");
    assert_eq!(tidy("a\n \n b\n"), "a\nb");
    assert_eq!(tidy("\nlast"), "last");
}

#[test]
fn identifiers_are_classified_by_what_they_are() {
    let a = classify_identifier("978-0-306-40615-7");
    assert_eq!(a.kind, IdentifierKind::Isbn13);
    assert_eq!(a.value, "9780306406157");
    let b = classify_identifier("0-306-40615-3");
    assert_eq!(b.kind, IdentifierKind::Isbn13);
    assert_eq!(b.value, "0-306-40615-3");
    let c = classify_identifier("abcdefghij");
    assert_eq!(c.kind, IdentifierKind::Isbn10);
    let d = classify_identifier("doi:10.1000/182");
    assert_eq!(d.kind, IdentifierKind::Other);
}

#[test]
fn metadata_edits_are_staged_for_the_active_epub_files_of_an_item() {
    let mut lib = Library::new();
    lib.files.push(record("f1", "i1", "/lib/a.epub", ".epub", "aa"));
    lib.files.push(record("f2", "i1", "/lib/a.pdf", ".pdf", "bb"));
    lib.files.push(record("f3", "i2", "/lib/b.epub", ".epub", "cc"));
    lib.files.push(record("f4", "i1", "/lib/c.epub", "EPUB", "dd"));
    lib.files.push(record("f5", "i1", "/lib/d.epub", ".epub", "ee"));
    lib.files[4].status = FileStatus::Missing;
    let edit = MetadataEdit { title: Some("T".to_string()), author: None, isbn: None, description: None };
    let mut q = ChangeQueue::new();
    let stamps = queue_epub_changes_for_item(&mut q, &lib, "i1", &edit, "{\"title\":\"T\"}");
    assert_eq!(stamps.len(), 2);
    assert_eq!(q.changes.len(), 2);
    assert_eq!(q.changes[0].file_id, "f1");
    assert_eq!(q.changes[0].kind, ChangeKind::MetadataEdit);
    assert_eq!(q.changes[0].from_path.as_deref(), Some("/lib/a.epub"));
    assert_eq!(q.changes[0].payload.as_deref(), Some("{\"title\":\"T\"}"));
    assert_eq!(q.changes[1].file_id, "f4");
    // A second edit supersedes the first for each file.
    let again = queue_epub_changes_for_item(&mut q, &lib, "i1", &edit, "{\"title\":\"U\"}");
    assert_eq!(again.len(), 2);
    assert_eq!(q.changes.len(), 2);
    assert_eq!(q.changes[0].payload.as_deref(), Some("{\"title\":\"U\"}"));
    assert_eq!(q.changes[1].payload.as_deref(), Some("{\"title\":\"U\"}"));
    // Each stamp is the identifier and the time of the row it stands for.
    assert_eq!(q.changes[0].id, again[0].id);
    assert_eq!(q.changes[0].created_at, again[0].now);
    assert_eq!(q.changes[1].id, again[1].id);
    assert_eq!(q.changes[1].created_at, again[1].now);
}

#[test]
fn the_only_epub_of_an_item_gets_one_stamp_each_time() {
    let mut lib = Library::new();
    lib.files.push(record("f1", "i1", "/lib/a.epub", ".epub", "aa"));
    let first = MetadataEdit { title: Some("T".to_string()), author: None, isbn: None, description: None };
    let second = MetadataEdit { title: None, author: Some("A".to_string()), isbn: None, description: None };
    let mut q = ChangeQueue::new();
    assert_eq!(queue_epub_changes_for_item(&mut q, &lib, "i1", &first, "one").len(), 1);
    let stamps = queue_epub_changes_for_item(&mut q, &lib, "i1", &second, "two");
    assert_eq!(stamps.len(), 1);
    assert_eq!(q.changes.len(), 1);
    assert_eq!(q.changes[0].id, stamps[0].id);
    assert_eq!(q.changes[0].created_at, stamps[0].now);
    assert_eq!(q.changes[0].payload.as_deref(), Some("two"));
    assert_eq!(q.changes[0].from_path.as_deref(), Some("/lib/a.epub"));
    // An item without files stages nothing and returns nothing.
    assert!(queue_epub_changes_for_item(&mut q, &lib, "i9", &second, "x").is_empty());
    assert_eq!(q.changes.len(), 1);
}

#[test]
fn an_edit_without_changes_stages_nothing() {
    let mut lib = Library::new();
    lib.files.push(record("f1", "i1", "/lib/a.epub", ".epub", "aa"));
    let edit = MetadataEdit { title: None, author: None, isbn: None, description: None };
    assert!(!edit.has_changes());
    let mut q = ChangeQueue::new();
    assert!(queue_epub_changes_for_item(&mut q, &lib, "i1", &edit, "{}").is_empty());
    assert!(q.changes.is_empty());
}

#[test]
fn resolving_a_duplicate_group_stages_removals_for_the_others() {
    let mut lib = Library::new();
    lib.files.push(record("f1", "i1", "/lib/a.epub", ".epub", "aa"));
    lib.files.push(record("f2", "i1", "/lib/b.epub", ".epub", "aa"));
    lib.files.push(record("f3", "i1", "/lib/c.epub", ".epub", "zz"));
    lib.files.push(record("f4", "i1", "/lib/d.epub", ".epub", "aa"));
    lib.files[3].status = FileStatus::Missing;
    let mut q = ChangeQueue::new();
    let stamps = resolve_duplicate_group(&mut q, &lib, "aa", "f2").unwrap();
    assert_eq!(stamps.len(), 1);
    assert_eq!(q.changes.len(), 1);
    assert_eq!(q.changes[0].file_id, "f1");
    assert_eq!(q.changes[0].kind, ChangeKind::Delete);
    assert_eq!(q.changes[0].from_path.as_deref(), Some("/lib/a.epub"));
    assert_eq!(lib.files[0].status, FileStatus::Active);
    assert_eq!(resolve_duplicate_group(&mut q, &lib, "aa", "f3").unwrap_err(), ResolveError::NotInGroup);
    assert_eq!(resolve_duplicate_group(&mut q, &lib, "aa", "f4").unwrap_err(), ResolveError::NotInGroup);
    assert_eq!(q.changes.len(), 1);
}
