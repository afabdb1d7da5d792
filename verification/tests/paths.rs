use folio::paths::{extension, file_name, file_stem, join, parent, strip_prefix, with_file_name};

fn some(s: &str) -> Option<String> {
    Some(s.to_string())
}

#[test]
fn file_names_follow_the_last_separator() {
    assert_eq!(file_name("/lib/Author/Title.epub"), some("Title.epub"));
    assert_eq!(file_name("Title.epub"), some("Title.epub"));
    assert_eq!(file_name("/lib/"), None);
    assert_eq!(file_name(""), None);
    assert_eq!(file_name("/lib/.."), None);
    assert_eq!(file_name("."), None);
}

#[test]
fn stems_and_extensions_split_at_the_last_dot() {
    assert_eq!(file_stem("/lib/a.tar.gz"), some("a.tar"));
    assert_eq!(extension("/lib/a.tar.gz"), some("gz"));
    assert_eq!(file_stem("/lib/.hidden"), some(".hidden"));
    assert_eq!(extension("/lib/.hidden"), None);
    assert_eq!(file_stem("/lib/plain"), some("plain"));
    assert_eq!(extension("/lib/plain"), None);
    assert_eq!(file_stem("/lib/dot."), some("dot"));
    assert_eq!(extension("/lib/dot."), some(""));
    assert_eq!(file_stem("/lib/"), None);
}

#[test]
fn parents_drop_the_last_component() {
    assert_eq!(parent("/lib/Author/Title.epub"), some("/lib/Author"));
    assert_eq!(parent("/Title.epub"), some("/"));
    assert_eq!(parent("Title.epub"), some(""));
    assert_eq!(parent("/"), None);
    assert_eq!(parent(""), None);
}

#[test]
fn joining_adds_one_separator() {
    assert_eq!(join("/lib", "a/b.epub"), "/lib/a/b.epub");
    assert_eq!(join("/lib/", "a/b.epub"), "/lib/a/b.epub");
    assert_eq!(join("", "a/b.epub"), "a/b.epub");
    assert_eq!(join("/lib", "/abs/b.epub"), "/abs/b.epub");
    assert_eq!(join("/lib", ""), "/lib/");
}

#[test]
fn file_names_are_replaced_in_place() {
    assert_eq!(with_file_name("/lib/a/b.epub", "c.pdf"), "/lib/a/c.pdf");
    assert_eq!(with_file_name("b.epub", "c.pdf"), "c.pdf");
    assert_eq!(with_file_name("/b.epub", "c.pdf"), "/c.pdf");
}

#[test]
fn prefixes_are_stripped_at_component_bounds() {
    assert_eq!(strip_prefix("/lib/a/b.epub", "/lib"), some("a/b.epub"));
    assert_eq!(strip_prefix("/lib/a/b.epub", "/lib/"), some("a/b.epub"));
    assert_eq!(strip_prefix("/lib2/a.epub", "/lib"), None);
    assert_eq!(strip_prefix("/lib", "/lib"), some(""));
    assert_eq!(strip_prefix("/other/a.epub", "/lib"), None);
    assert_eq!(strip_prefix("a.epub", ""), some("a.epub"));
}
