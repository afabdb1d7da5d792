use folio::authors::{
    dedupe_sources, has_required_name_token_match, looks_like_author_description,
    looks_like_name_page_description, looks_like_non_person_description,
    looks_like_person_context, non_empty, normalize_author_key, normalize_ws,
    required_name_tokens, tokenize, AuthorSourceSelection,
};

#[test]
fn source_selection_falls_back_to_openlibrary_when_all_disabled() {
    let selection = AuthorSourceSelection {
        open_library: false,
        wikidata: false,
        wikipedia: false,
    }
    .with_fallback();

    assert!(selection.open_library);
}

#[test]
fn source_selection_is_kept_when_something_is_selected() {
    let selection = AuthorSourceSelection {
        open_library: false,
        wikidata: true,
        wikipedia: false,
    }
    .with_fallback();
    assert!(!selection.open_library);
    assert!(selection.wikidata);
    assert!(!selection.wikipedia);
}

#[test]
fn author_descriptions_are_recognised_in_any_case() {
    assert!(looks_like_author_description("English AUTHOR and humorist"));
    assert!(looks_like_author_description("a Playwright"));
    assert!(!looks_like_author_description("English footballer"));
    assert!(!looks_like_author_description(""));
}

#[test]
fn works_and_characters_are_not_persons() {
    assert!(looks_like_non_person_description("1982 film by Ridley Scott"));
    assert!(looks_like_non_person_description("Novel by Douglas Adams"));
    assert!(looks_like_non_person_description("TV series"));
    assert!(!looks_like_non_person_description("English writer"));
}

#[test]
fn name_pages_are_recognised() {
    assert!(looks_like_name_page_description("male given name"));
    assert!(looks_like_name_page_description("Wikimedia Disambiguation page"));
    assert!(!looks_like_name_page_description("Japanese novelist"));
}

#[test]
fn person_context_is_recognised() {
    assert!(looks_like_person_context("Born 1952 in Cambridge"));
    assert!(looks_like_person_context("She is known for her essays"));
    assert!(!looks_like_person_context("a collection of stories"));
}

#[test]
fn white_space_is_collapsed() {
    assert_eq!(normalize_ws("  Douglas \t\n Adams  "), "Douglas Adams");
    assert_eq!(normalize_ws(""), "");
    assert_eq!(normalize_ws(" \t "), "");
    assert_eq!(normalize_ws("one"), "one");
}

#[test]
fn non_empty_trims_and_rejects_blank_text() {
    assert_eq!(non_empty("  bio  ".to_string()), Some("bio".to_string()));
    assert_eq!(non_empty("   ".to_string()), None);
    assert_eq!(non_empty(String::new()), None);
    assert_eq!(non_empty("a  b".to_string()), Some("a  b".to_string()));
}

#[test]
fn author_key_lowers_letters_and_drops_punctuation() {
    assert_eq!(normalize_author_key("J.K. Rowling"), "j k rowling");
    assert_eq!(normalize_author_key("  Ursula  K.  Le Guin "), "ursula k le guin");
    assert_eq!(normalize_author_key("Émile Zola"), "émile zola");
    assert_eq!(normalize_author_key("---"), "");
}

#[test]
fn tokens_are_lower_case_distinct_words() {
    assert_eq!(tokenize("The the THE cat"), vec!["the".to_string(), "cat".to_string()]);
    assert_eq!(tokenize("  "), Vec::<String>::new());
}

#[test]
fn sources_are_listed_once_each() {
    let sources = vec![
        "wikidata".to_string(),
        "openlibrary".to_string(),
        "wikidata".to_string(),
    ];
    assert_eq!(
        dedupe_sources(sources),
        vec!["wikidata".to_string(), "openlibrary".to_string()]
    );
    assert_eq!(dedupe_sources(vec![]), Vec::<String>::new());
}

#[test]
fn required_tokens_skip_particles_short_tokens_and_the_first() {
    assert_eq!(
        required_name_tokens("A. van Aardenburg"),
        Vec::<String>::new()
    );
    assert_eq!(
        required_name_tokens("Haruki Murakami"),
        vec!["murakami".to_string()]
    );
    assert_eq!(
        required_name_tokens("Gabriel García Márquez"),
        vec!["garcía".to_string(), "márquez".to_string()]
    );
    assert_eq!(required_name_tokens("Voltaire"), Vec::<String>::new());
}

#[test]
fn required_tokens_must_all_be_shown() {
    let shown = vec!["Murakami, Haruki".to_string()];
    assert!(has_required_name_token_match("Haruki Murakami", &shown));
    let other = vec!["Haruki Sato".to_string()];
    assert!(!has_required_name_token_match("Haruki Murakami", &other));
    assert!(has_required_name_token_match("Voltaire", &other));
    let spread = vec!["Gabriel".to_string(), "garcía".to_string(), "MÁRQUEZ!".to_string()];
    assert!(has_required_name_token_match("Gabriel García Márquez", &spread));
    assert!(!has_required_name_token_match("Gabriel García Márquez", &vec![]));
}
