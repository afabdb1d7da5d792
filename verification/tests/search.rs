use folio::search::{parse_search_query, parse_u32, parse_wikipedia_thumbnail_width, split_search_query};
use folio::sync::resolve_sync_collision;
use folio::tags::parse_tags;

fn pair(title: &str, author: Option<&str>) -> (String, Option<String>) {
    (title.to_string(), author.map(str::to_string))
}

#[test]
fn queries_split_into_title_and_author() {
    assert_eq!(parse_search_query("Dune by Frank Herbert"), pair("Dune", Some("Frank Herbert")));
    assert_eq!(parse_search_query("Dune BY Frank Herbert"), pair("Dune", Some("Frank Herbert")));
    assert_eq!(parse_search_query("Dune - Frank Herbert"), pair("Dune", Some("Frank Herbert")));
    assert_eq!(parse_search_query("Stand by Me by King"), pair("Stand", Some("Me by King")));
    assert_eq!(parse_search_query("Dune"), pair("Dune", None));
    assert_eq!(parse_search_query("Goodbye"), pair("Goodbye", None));
    assert_eq!(parse_search_query(" by Someone"), pair(" by Someone", None));
    assert_eq!(parse_search_query("Dune by "), pair("Dune", None));
    assert_eq!(parse_search_query(""), pair("", None));
}

#[test]
fn a_query_is_cut_where_the_separator_is_found() {
    assert_eq!(split_search_query("A - B", "a - b", " - "), Some(pair("A", Some("B"))));
    assert_eq!(split_search_query("A - B", "a - b", " by "), None);
    assert_eq!(split_search_query(" - B", " - b", " - "), None);
}

#[test]
fn numbers_are_read_strictly() {
    assert_eq!(parse_u32("330"), Some(330));
    assert_eq!(parse_u32("+7"), Some(7));
    assert_eq!(parse_u32("007"), Some(7));
    assert_eq!(parse_u32("4294967295"), Some(u32::MAX));
    assert_eq!(parse_u32("4294967296"), None);
    assert_eq!(parse_u32("99999999999999999999999"), None);
    assert_eq!(parse_u32(""), None);
    assert_eq!(parse_u32("+"), None);
    assert_eq!(parse_u32("-1"), None);
    assert_eq!(parse_u32("12a"), None);
    assert_eq!(parse_u32(" 12"), None);
}

#[test]
fn thumbnail_widths_are_read_from_the_address() {
    assert_eq!(
        parse_wikipedia_thumbnail_width("https://upload.wikimedia.org/thumb/a/ab/x.jpg/330px-x.jpg"),
        Some(330)
    );
    assert_eq!(parse_wikipedia_thumbnail_width("https://example.org/x.jpg"), None);
    assert_eq!(parse_wikipedia_thumbnail_width("330px-x.jpg"), None);
    assert_eq!(parse_wikipedia_thumbnail_width("/widepx-x.jpg"), None);
    assert_eq!(parse_wikipedia_thumbnail_width("/12px-a/40px-b"), Some(12));
}

#[test]
fn a_free_name_on_the_device_is_kept() {
    let occupied = vec!["/dev/books/other.epub".to_string()];
    assert_eq!(resolve_sync_collision("/dev/books", "book.epub", &occupied), "/dev/books/book.epub");
}

#[test]
fn a_taken_name_on_the_device_gets_an_index_in_round_brackets() {
    let mut occupied = vec!["/dev/books/book.epub".to_string()];
    assert_eq!(resolve_sync_collision("/dev/books", "book.epub", &occupied), "/dev/books/book (1).epub");
    occupied.push("/dev/books/book (1).epub".to_string());
    assert_eq!(resolve_sync_collision("/dev/books", "book.epub", &occupied), "/dev/books/book (2).epub");
    let plain = vec!["/dev/notes".to_string()];
    assert_eq!(resolve_sync_collision("/dev", "notes", &plain), "/dev/notes (1)");
}

#[test]
fn packed_tags_are_unpacked() {
    let tags = parse_tags(Some("t1|Fiction|#ff0000||t2| Poetry |".to_string()));
    assert_eq!(tags.len(), 2);
    assert_eq!(tags[0].id, "t1");
    assert_eq!(tags[0].name, "Fiction");
    assert_eq!(tags[0].color.as_deref(), Some("#ff0000"));
    assert_eq!(tags[1].id, "t2");
    assert_eq!(tags[1].name, "Poetry");
    assert_eq!(tags[1].color, None);
}

#[test]
fn broken_entries_are_passed_over() {
    assert!(parse_tags(None).is_empty());
    assert!(parse_tags(Some(String::new())).is_empty());
    assert!(parse_tags(Some("justanid".to_string())).is_empty());
    assert!(parse_tags(Some("|name".to_string())).is_empty());
    assert!(parse_tags(Some("id|  ".to_string())).is_empty());
    let tags = parse_tags(Some("bad||t1|A|red|extra||".to_string()));
    assert_eq!(tags.len(), 1);
    assert_eq!(tags[0].id, "t1");
    assert_eq!(tags[0].color.as_deref(), Some("red|extra"));
}
