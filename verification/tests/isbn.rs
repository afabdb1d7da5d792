use folio::isbn::{is_valid_isbn10, is_valid_isbn13, isbn_to_ean13, normalize_isbn};

#[test]
fn ten_digit_numbers_are_checked() {
    assert!(is_valid_isbn10("0306406152"));
    assert!(is_valid_isbn10("080442957X"));
    assert!(!is_valid_isbn10("0306406153"));
    assert!(!is_valid_isbn10("03064A6152"));
}

#[test]
fn a_short_ten_digit_number_is_checked_on_what_it_has() {
    assert!(is_valid_isbn10(""));
    assert!(!is_valid_isbn10("1"));
}

#[test]
fn thirteen_digit_numbers_are_checked() {
    assert!(is_valid_isbn13("9780306406157"));
    assert!(!is_valid_isbn13("9780306406158"));
    assert!(!is_valid_isbn13("97803064061X7"));
    assert!(is_valid_isbn13(""));
}

#[test]
fn numbers_are_normalised() {
    assert_eq!(normalize_isbn("0-306-40615-2"), Some("0306406152".to_string()));
    assert_eq!(normalize_isbn("ISBN 978-0-306-40615-7"), Some("9780306406157".to_string()));
    assert_eq!(normalize_isbn("0-8044-2957-x"), Some("080442957X".to_string()));
    assert_eq!(normalize_isbn("0-306-40615-3"), None);
    assert_eq!(normalize_isbn("12345"), None);
    assert_eq!(normalize_isbn(""), None);
}

#[test]
fn ten_digit_numbers_convert_to_thirteen() {
    assert_eq!(isbn_to_ean13("0-306-40615-2"), Some("9780306406157".to_string()));
    assert_eq!(isbn_to_ean13("080442957X"), Some("9780804429573".to_string()));
    assert_eq!(isbn_to_ean13("978-0-306-40615-7"), Some("9780306406157".to_string()));
    assert_eq!(isbn_to_ean13("not a number"), None);
}

#[test]
fn converted_numbers_pass_the_check() {
    let converted = isbn_to_ean13("0306406152").unwrap();
    assert!(is_valid_isbn13(&converted));
}
