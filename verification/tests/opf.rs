use folio::flows::{queue_epub_changes, MetadataEdit};
use folio::opf::{rewrite_opf_metadata, Emitted, XmlEvent};

fn start(name: &str) -> XmlEvent {
    XmlEvent::Start { name: name.to_string() }
}

fn end(name: &str) -> XmlEvent {
    XmlEvent::End { name: name.to_string() }
}

/// What comes out, written down in one line: kept events by position,
/// tags and texts as they are.
fn shown(out: &[Emitted]) -> String {
    out.iter()
        .map(|e| match e {
            Emitted::Keep { index } => format!("#{}", index),
            Emitted::Open { name } => format!("<{}>", name),
            Emitted::Text { text } => format!("'{}'", text),
            Emitted::Close { name } => format!("</{}>", name),
        })
        .collect::<Vec<String>>()
        .join(" ")
}

fn edit(title: Option<&str>, author: Option<&str>, isbn: Option<&str>, description: Option<&str>) -> MetadataEdit {
    MetadataEdit {
        title: title.map(str::to_string),
        author: author.map(str::to_string),
        isbn: isbn.map(str::to_string),
        description: description.map(str::to_string),
    }
}

fn document() -> Vec<XmlEvent> {
    vec![
        start("package"),       // 0
        start("metadata"),      // 1
        start("dc:title"),      // 2
        XmlEvent::Other,        // 3 old title
        end("dc:title"),        // 4
        start("dc:creator"),    // 5
        XmlEvent::Other,        // 6 old creator
        end("dc:creator"),      // 7
        end("metadata"),        // 8
        start("manifest"),      // 9
        end("manifest"),        // 10
        end("package"),         // 11
    ]
}

#[test]
fn an_empty_edit_keeps_every_event() {
    let out = rewrite_opf_metadata(&document(), &edit(None, None, None, None));
    assert_eq!(shown(&out), "#0 #1 #2 #3 #4 #5 #6 #7 #8 #9 #10 #11");
}

#[test]
fn existing_fields_get_the_new_text() {
    let out = rewrite_opf_metadata(&document(), &edit(Some("New"), None, None, None));
    assert_eq!(shown(&out), "#0 #1 #2 'New' </dc:title> #5 #6 #7 #8 #9 #10 #11");
    let out = rewrite_opf_metadata(&document(), &edit(Some("T"), Some("A"), None, None));
    assert_eq!(shown(&out), "#0 #1 #2 'T' </dc:title> #5 'A' </dc:creator> #8 #9 #10 #11");
}

#[test]
fn lacking_fields_are_added_before_the_metadata_closes() {
    let out = rewrite_opf_metadata(&document(), &edit(None, None, Some("978"), Some("About")));
    assert_eq!(
        shown(&out),
        "#0 #1 #2 #3 #4 #5 #6 #7 <dc:identifier> '978' </dc:identifier> \
         <dc:description> 'About' </dc:description> #8 #9 #10 #11"
    );
}

#[test]
fn added_fields_use_the_prefix_last_seen() {
    let events = vec![start("opf:metadata"), start("dcterms:title"), end("dcterms:title"), end("opf:metadata")];
    let out = rewrite_opf_metadata(&events, &edit(None, Some("A"), None, None));
    assert_eq!(shown(&out), "#0 #1 #2 <dcterms:creator> 'A' </dcterms:creator> #3");
    let bare = vec![start("metadata"), end("metadata")];
    let out = rewrite_opf_metadata(&bare, &edit(Some("T"), None, None, None));
    assert_eq!(shown(&out), "#0 <dc:title> 'T' </dc:title> #1");
}

#[test]
fn only_the_first_of_a_repeated_field_is_rewritten() {
    let events = vec![
        start("metadata"),
        start("dc:creator"),
        XmlEvent::Other,
        end("dc:creator"),
        start("dc:creator"),
        XmlEvent::Other,
        end("dc:creator"),
        end("metadata"),
    ];
    let out = rewrite_opf_metadata(&events, &edit(None, Some("A"), None, None));
    assert_eq!(shown(&out), "#0 #1 'A' </dc:creator> #4 #5 #6 #7");
}

#[test]
fn fields_outside_the_metadata_are_left_alone() {
    let events = vec![start("guide"), start("title"), end("title"), end("guide")];
    let out = rewrite_opf_metadata(&events, &edit(Some("T"), None, None, None));
    assert_eq!(shown(&out), "#0 #1 #2 #3");
}

#[test]
fn an_unclosed_field_swallows_the_rest() {
    let events = vec![start("metadata"), start("dc:title"), XmlEvent::Other, end("metadata")];
    let out = rewrite_opf_metadata(&events, &edit(Some("T"), None, None, None));
    assert_eq!(shown(&out), "#0 #1 'T' </dc:title>");
}

#[test]
fn an_edit_is_drawn_from_a_candidate() {
    let e = queue_epub_changes(
        &Some("Title".to_string()),
        &vec!["First".to_string(), "Second".to_string()],
        &vec!["x".to_string(), "978-0-306-40615-7".to_string(), "0306406152".to_string()],
    );
    assert_eq!(e.title.as_deref(), Some("Title"));
    assert_eq!(e.author.as_deref(), Some("First"));
    assert_eq!(e.isbn.as_deref(), Some("9780306406157"));
    assert_eq!(e.description, None);
    let none = queue_epub_changes(&None, &vec![], &vec!["short".to_string()]);
    assert!(!none.has_changes());
    let odd = queue_epub_changes(&None, &vec![], &vec!["abcdefghij".to_string()]);
    assert_eq!(odd.isbn.as_deref(), Some("abcdefghij"));
}
