use folio::matching::{
    authors_match_fuzzy, clean_search_author, extract_author_last_name,
    normalize_author_for_matching, normalize_title_for_matching, normalize_title_snapshot,
    tokenize,
};

fn names(list: &[&str]) -> Vec<String> {
    list.iter().map(|s| s.to_string()).collect()
}

#[test]
fn snapshots_are_collapsed_and_lower_case() {
    assert_eq!(normalize_title_snapshot("  The  Long\tWay  "), "the long way");
    assert_eq!(normalize_title_snapshot(""), "");
}

#[test]
fn tokens_keep_ascii_letters_and_digits_only() {
    assert_eq!(tokenize("The Hitchhiker's Guide, 2nd ed."), names(&["the", "hitchhiker", "s", "guide", "2nd", "ed"]));
    assert_eq!(tokenize("Café café"), names(&["caf"]));
    assert_eq!(tokenize("..."), Vec::<String>::new());
}

#[test]
fn titles_are_reduced_for_matching() {
    assert_eq!(normalize_title_for_matching("The Hobbit: There and Back Again"), "hobbit");
    assert_eq!(normalize_title_for_matching("Dune - Book One"), "dune");
    assert_eq!(normalize_title_for_matching("A Tale of Two Cities"), "tale of two cities");
    assert_eq!(normalize_title_for_matching("An  Apple!!"), "apple");
    assert_eq!(normalize_title_for_matching("Het Achterhuis"), "achterhuis");
    assert_eq!(normalize_title_for_matching("Theory of Everything"), "theory of everything");
    assert_eq!(normalize_title_for_matching("Catch-22"), "catch 22");
    assert_eq!(normalize_title_for_matching("The The"), "the");
    assert_eq!(normalize_title_for_matching(""), "");
}

#[test]
fn authors_are_reduced_like_titles() {
    assert_eq!(normalize_author_for_matching("Le Guin, Ursula K."), "le guin ursula k");
    assert_eq!(normalize_author_for_matching("De Sade"), "sade");
}

#[test]
fn last_names_are_extracted_from_both_orders() {
    assert_eq!(extract_author_last_name("Douglas Adams"), "adams");
    assert_eq!(extract_author_last_name("  Adams, Douglas "), "adams");
    assert_eq!(extract_author_last_name("Le Guin , Ursula"), "le guin");
    assert_eq!(extract_author_last_name("Voltaire"), "voltaire");
    assert_eq!(extract_author_last_name(""), "");
    assert_eq!(extract_author_last_name("   "), "");
}

#[test]
fn author_lists_match_on_last_names() {
    assert!(authors_match_fuzzy(&names(&["Douglas Adams"]), &names(&["Adams, Douglas"])));
    assert!(authors_match_fuzzy(&names(&["A. Smith", "B. Jones"]), &names(&["Carol Jones"])));
    assert!(authors_match_fuzzy(&names(&["Jean-Paul Sartre"]), &names(&["Sartre"])));
    assert!(authors_match_fuzzy(&names(&["Anna Smithson"]), &names(&["Bob Smith"])));
    assert!(!authors_match_fuzzy(&names(&["Douglas Adams"]), &names(&["Terry Pratchett"])));
    assert!(authors_match_fuzzy(&names(&[]), &names(&["Terry Pratchett"])));
    assert!(authors_match_fuzzy(&names(&["Douglas Adams"]), &names(&[])));
}

#[test]
fn search_authors_are_cleaned() {
    assert_eq!(clean_search_author("  Douglas Adams "), Some("Douglas Adams".to_string()));
    assert_eq!(clean_search_author("A"), None);
    assert_eq!(clean_search_author(""), None);
    assert_eq!(clean_search_author("12345 678"), None);
    assert_eq!(clean_search_author("Unknown Author"), None);
    assert_eq!(clean_search_author("VARIOUS"), None);
    assert_eq!(clean_search_author("author"), None);
    assert_eq!(clean_search_author("Authors Guild"), Some("Authors Guild".to_string()));
    assert_eq!(clean_search_author("X1"), Some("X1".to_string()));
}
