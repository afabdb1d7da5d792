use folio::extract::{extract_year, parse_opf_metadata, ExtractError, OpfPiece};

fn open(name: &str) -> OpfPiece {
    OpfPiece::Open { name: name.to_string(), attr_name: String::new(), attr_content: String::new() }
}

fn text(raw: &str) -> OpfPiece {
    OpfPiece::Text { raw: raw.to_string() }
}

fn meta(name: &str, content: &str) -> OpfPiece {
    OpfPiece::Single {
        name: "meta".to_string(),
        attr_name: name.to_string(),
        attr_content: content.to_string(),
    }
}

fn element(name: &str, raw: &str) -> Vec<OpfPiece> {
    vec![open(name), text(raw), OpfPiece::Other]
}

#[test]
fn a_package_document_is_read_field_by_field() {
    let mut pieces = vec![open("package"), open("metadata")];
    pieces.extend(element("dc:title", "Dune"));
    pieces.extend(element("dc:creator", "Frank Herbert"));
    pieces.extend(element("dc:creator", "Brian Herbert"));
    pieces.extend(element("dc:language", "en"));
    pieces.extend(element("dc:identifier", "9780441172719"));
    pieces.extend(element("dc:date", "1965-08-01"));
    pieces.extend(element("dc:description", "<p>Spice.</p>"));
    pieces.extend(element("dc:publisher", "Chilton"));
    pieces.push(meta("calibre:series", "Dune Saga"));
    pieces.push(OpfPiece::Other);
    let found = parse_opf_metadata(&pieces, "").unwrap();
    assert_eq!(found.title.as_deref(), Some("Dune"));
    assert_eq!(found.authors, vec!["Frank Herbert".to_string(), "Brian Herbert".to_string()]);
    assert_eq!(found.language.as_deref(), Some("en"));
    assert_eq!(found.identifiers, vec!["9780441172719".to_string()]);
    assert_eq!(found.published_year, Some(1965));
    assert_eq!(found.description.as_deref(), Some("Spice."));
    assert_eq!(found.series.as_deref(), Some("Dune Saga"));
}

#[test]
fn the_first_value_of_a_single_field_wins() {
    let mut pieces = Vec::new();
    pieces.extend(element("dc:title", "First"));
    pieces.extend(element("dc:title", "Second"));
    pieces.extend(element("dc:language", "nl"));
    pieces.extend(element("dc:language", "en"));
    pieces.extend(element("dc:date", "no year here"));
    pieces.extend(element("dc:date", "printed 2001"));
    pieces.extend(element("dc:date", "1999"));
    pieces.push(meta("calibre:series", "One"));
    pieces.push(meta("calibre:series", "Two"));
    pieces.push(meta("calibre:series_index", "3"));
    let found = parse_opf_metadata(&pieces, "").unwrap();
    assert_eq!(found.title.as_deref(), Some("First"));
    assert_eq!(found.language.as_deref(), Some("nl"));
    assert_eq!(found.published_year, Some(2001));
    assert_eq!(found.series.as_deref(), Some("One"));
}

#[test]
fn a_meta_element_counts_open_or_empty_and_other_elements_do_not() {
    let pieces = vec![
        OpfPiece::Single {
            name: "item".to_string(),
            attr_name: "calibre:series".to_string(),
            attr_content: "Not this".to_string(),
        },
        OpfPiece::Open {
            name: "meta".to_string(),
            attr_name: "calibre:series".to_string(),
            attr_content: "This".to_string(),
        },
    ];
    let found = parse_opf_metadata(&pieces, "").unwrap();
    assert_eq!(found.series.as_deref(), Some("This"));
}

#[test]
fn references_in_text_are_resolved_and_a_bad_one_fails_the_reading() {
    let good = element("dc:title", "Tom &amp; Jerry &#33;");
    assert_eq!(parse_opf_metadata(&good, "").unwrap().title.as_deref(), Some("Tom & Jerry !"));
    let mut bad = element("dc:title", "Fine");
    bad.extend(element("dc:publisher", "Tom &bogus; Jerry"));
    bad.extend(element("dc:creator", "Never read"));
    assert_eq!(parse_opf_metadata(&bad, "").unwrap_err(), ExtractError::MalformedText);
}

#[test]
fn empty_creators_and_identifiers_are_left_out() {
    let mut pieces = Vec::new();
    pieces.extend(element("dc:creator", ""));
    pieces.extend(element("dc:creator", "A"));
    pieces.extend(element("dc:identifier", ""));
    pieces.extend(element("dc:identifier", "x-1"));
    let found = parse_opf_metadata(&pieces, "978-0-306-40615-7").unwrap();
    assert_eq!(found.authors, vec!["A".to_string()]);
    assert_eq!(found.identifiers, vec!["x-1".to_string()]);
}

#[test]
fn text_after_a_closing_tag_still_counts_for_the_element_opened_last() {
    let pieces = vec![open("dc:creator"), text("X"), OpfPiece::Other, text("Y")];
    let found = parse_opf_metadata(&pieces, "").unwrap();
    assert_eq!(found.authors, vec!["X".to_string(), "Y".to_string()]);
}

#[test]
fn book_numbers_in_the_text_stand_in_for_missing_identifiers() {
    let document = "<package><dc:title>T</dc:title>978-0-306-40615-7 and 0306406152</package>";
    let found = parse_opf_metadata(&element("dc:title", "T"), document).unwrap();
    assert_eq!(found.identifiers, vec!["978-0-306-40615-7".to_string(), "0306406152".to_string()]);
    let none = parse_opf_metadata(&element("dc:title", "T"), "<package/>").unwrap();
    assert!(none.identifiers.is_empty());
    assert!(none.authors.is_empty());
    assert_eq!(none.published_year, None);
}

#[test]
fn a_year_is_four_digits_that_stand_alone() {
    assert_eq!(extract_year("1965-08-01"), Some(1965));
    assert_eq!(extract_year("May 1999"), Some(1999));
    assert_eq!(extract_year("0042"), Some(42));
    assert_eq!(extract_year("12345 then 2020"), Some(2020));
    assert_eq!(extract_year("12345"), None);
    assert_eq!(extract_year("196"), None);
    assert_eq!(extract_year(""), None);
    // Digits of another script are matched and spell no year.
    assert_eq!(extract_year("\u{662}\u{660}\u{661}\u{669} 2019"), None);
}
